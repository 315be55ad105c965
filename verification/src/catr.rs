//! `cat`: lines shown as they are, or numbered.

use vstd::prelude::*;
use crate::text::{decimal, pad_left, push_padded, push_str, string_of};

verus! {

/// What `cat` was asked to do: number every line, or only the lines that
/// are not empty.
#[derive(Debug)]
pub struct Config {
    pub files: Vec<String>,
    pub number_lines: bool,
    pub number_nonblank_lines: bool,
}

/// The number of lines of `lines` that are not empty.
pub open spec fn nonblank_count(lines: Seq<Seq<char>>) -> nat
    decreases lines.len(),
{
    if lines.len() == 0 {
        0
    } else {
        nonblank_count(lines.drop_last()) + if lines.last().len() > 0 {
            1nat
        } else {
            0nat
        }
    }
}

/// `line` after its number, right-aligned in 6 columns, and a tab.
pub open spec fn numbered(n: nat, line: Seq<char>) -> Seq<char> {
    pad_left(decimal(n), 6) + seq!['\t'] + line
}

/// How `cat` shows the `i`-th of `lines` (from 0): numbered from 1 when
/// `number_lines`; otherwise, when `number_nonblank_lines`, an empty line
/// stays empty and the others are numbered by how many lines up to them
/// are not empty; otherwise as it is.
pub open spec fn shown_line(
    number_lines: bool,
    number_nonblank_lines: bool,
    lines: Seq<Seq<char>>,
    i: int,
) -> Seq<char> {
    if number_lines {
        numbered((i + 1) as nat, lines[i])
    } else if number_nonblank_lines {
        if lines[i].len() == 0 {
            Seq::empty()
        } else {
            numbered(nonblank_count(lines.take(i + 1)), lines[i])
        }
    } else {
        lines[i]
    }
}

/// Law: without flags `cat` shows every line exactly as it is; with either
/// flag every line still ends with the line itself, unchanged, an empty
/// line under `number_nonblank_lines` stays empty, and under `number_lines`
/// a line's number sits before a tab in front of it.
pub proof fn lemma_cat_keeps_lines(lines: Seq<Seq<char>>, i: int, number_lines: bool, nonblank: bool)
    requires
        0 <= i < lines.len(),
    ensures
        shown_line(false, false, lines, i) == lines[i],
        ({
            let shown = shown_line(number_lines, nonblank, lines, i);
            &&& shown.len() >= lines[i].len()
            &&& shown.skip(shown.len() - lines[i].len()) == lines[i]
        }),
        !number_lines && nonblank && lines[i].len() == 0 ==> shown_line(
            number_lines,
            nonblank,
            lines,
            i,
        ).len() == 0,
        number_lines ==> shown_line(number_lines, nonblank, lines, i) == pad_left(
            decimal((i + 1) as nat),
            6,
        ) + seq!['\t'] + lines[i],
{
    let shown = shown_line(number_lines, nonblank, lines, i);
    if number_lines || (nonblank && lines[i].len() > 0) {
        let n = if number_lines {
            (i + 1) as nat
        } else {
            nonblank_count(lines.take(i + 1))
        };
        let pre = pad_left(decimal(n), 6) + seq!['\t'];
        assert(shown == pre + lines[i]);
        assert((pre + lines[i]).skip(pre.len() as int) =~= lines[i]);
    } else {
        assert(shown.skip(shown.len() - lines[i].len()) =~= lines[i]);
    }
}

/// The lines `cat` shows for `lines`, one for one.
pub fn render_lines(config: &Config, lines: &Vec<String>) -> (r: Vec<String>)
    ensures
        r.len() == lines.len(),
        forall|i: int|
            0 <= i < lines.len() ==> (#[trigger] r@[i])@ == shown_line(
                config.number_lines,
                config.number_nonblank_lines,
                lines.deep_view(),
                i,
            ),
{
    let ghost ls = lines.deep_view();
    let mut out: Vec<String> = Vec::new();
    let mut nonblank: usize = 0;
    let mut i: usize = 0;
    while i < lines.len()
        invariant
            i <= lines.len(),
            ls == lines.deep_view(),
            out.len() == i,
            nonblank == nonblank_count(ls.take(i as int)),
            nonblank <= i,
            forall|j: int|
                0 <= j < i ==> (#[trigger] out@[j])@ == shown_line(
                    config.number_lines,
                    config.number_nonblank_lines,
                    ls,
                    j,
                ),
        decreases lines.len() - i,
    {
        assert(ls.take(i + 1).drop_last() =~= ls.take(i as int));
        let line = lines[i].as_str();
        assert(line@ == ls[i as int]);
        let empty = line.is_empty();
        if !empty {
            nonblank = nonblank + 1;
        }
        let shown = if config.number_lines {
            let mut v: Vec<char> = Vec::new();
            push_padded(&mut v, (i + 1) as u64, 6);
            v.push('\t');
            push_str(&mut v, line);
            assert(v@ =~= numbered((i + 1) as nat, ls[i as int]));
            string_of(&v)
        } else if config.number_nonblank_lines {
            if empty {
                String::new()
            } else {
                let mut v: Vec<char> = Vec::new();
                push_padded(&mut v, nonblank as u64, 6);
                v.push('\t');
                push_str(&mut v, line);
                assert(v@ =~= numbered(nonblank as nat, ls[i as int]));
                string_of(&v)
            }
        } else {
            line.to_owned()
        };
        out.push(shown);
        i = i + 1;
    }
    out
}

} // verus!
