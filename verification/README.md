# textutils

Verified building blocks of five small text tools, workalikes of `cat`,
`head`, `wc`, `uniq` and `tail`.

- `src/` is the library, verified with Verus: reading counts given on the
  command line, cutting text into lines, counting lines, words, bytes and
  characters, selecting the first or last lines or bytes, grouping runs of
  equal lines, and rendering the lines the tools print.
- `app/` is the command-line side: argument handling with `clap`, opening
  files, reading standard input and printing.
- `tests/` runs the library on concrete inputs.
