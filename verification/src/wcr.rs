//! `wc`: counts of lines, words, bytes and characters.

use vstd::prelude::*;
use vstd::utf8::{valid_utf8, decode_utf8};
use crate::text::{
    chars_of, count_words, word_count, decimal, pad_left, push_padded, push_str, string_of,
};

verus! {

/// The counts of one text.
#[derive(Debug, Clone, Copy, PartialEq, Eq, Structural)]
pub struct FileInfo {
    pub num_lines: usize,
    pub num_words: usize,
    pub num_bytes: usize,
    pub num_chars: usize,
}

/// What `wc` was asked to show.
#[derive(Debug)]
pub struct Config {
    pub files: Vec<String>,
    pub lines: bool,
    pub words: bool,
    pub bytes: bool,
    pub chars: bool,
}

impl Config {
    /// Builds the configuration from the files and the flags given; when no
    /// flag is given, lines, words and bytes are shown.
    pub fn new(files: Vec<String>, lines: bool, words: bool, bytes: bool, chars: bool) -> (r:
        Config)
        ensures
            r.files == files,
            r.chars == chars,
            (!lines && !words && !bytes && !chars) ==> r.lines && r.words && r.bytes,
            (lines || words || bytes || chars) ==> r.lines == lines && r.words == words && r.bytes
                == bytes,
    {
        if !lines && !words && !bytes && !chars {
            Config { files, lines: true, words: true, bytes: true, chars }
        } else {
            Config { files, lines, words, bytes, chars }
        }
    }
}

/// Why a text could not be counted.
#[derive(Debug, Clone, Copy, PartialEq, Eq, Structural)]
pub enum CountError {
    /// The bytes are not UTF-8.
    InvalidUtf8,
}

/// The number of lines of `s`: of newlines, and one more when the text does
/// not end with one.
pub open spec fn line_count(s: Seq<char>) -> nat
    decreases s.len(),
{
    if s.len() == 0 {
        0
    } else {
        line_count(s.drop_last()) + if s.len() == 1 || s[s.len() - 2] == '\n' {
            1nat
        } else {
            0nat
        }
    }
}

/// The counts of the text whose characters are `chars`, held in `num_bytes` bytes.
pub open spec fn counts_of(chars: Seq<char>, num_bytes: nat) -> FileInfo {
    FileInfo {
        num_lines: line_count(chars) as usize,
        num_words: word_count(chars) as usize,
        num_bytes: num_bytes as usize,
        num_chars: chars.len() as usize,
    }
}

/// Calls `std::str::from_utf8(bytes)`; trusted to give the text exactly
/// when the bytes are UTF-8, with the characters they encode.
#[verifier::external_body]
fn str_from_utf8(bytes: &[u8]) -> (r: Option<&str>)
    ensures
        r is Some == valid_utf8(bytes@),
        r matches Some(s) ==> s@ == decode_utf8(bytes@),
{
    std::str::from_utf8(bytes).ok()
}

/// Counts the lines of the characters `s`.
fn count_char_lines(s: &Vec<char>) -> (n: usize)
    ensures
        n == line_count(s@),
{
    let mut n: usize = 0;
    let mut i: usize = 0;
    while i < s.len()
        invariant
            i <= s.len(),
            n == line_count(s@.take(i as int)),
            n <= i,
        decreases s.len() - i,
    {
        assert(s@.take(i + 1).drop_last() =~= s@.take(i as int));
        if i == 0 || s[i - 1] == '\n' {
            n = n + 1;
        }
        i = i + 1;
    }
    assert(s@.take(s.len() as int) =~= s@);
    n
}

/// Counts the lines, words, bytes and characters of `data`, which must be
/// UTF-8; a line is what ends with a newline or with the text, a word a
/// maximal run of characters that are not white space.
pub fn count(data: &[u8]) -> (r: Result<FileInfo, CountError>)
    ensures
        r is Ok == valid_utf8(data@),
        r matches Ok(info) ==> info == counts_of(decode_utf8(data@), data@.len()),
{
    match str_from_utf8(data) {
        None => Err(CountError::InvalidUtf8),
        Some(text) => {
            let chars = chars_of(text);
            let num_lines = count_char_lines(&chars);
            let num_words = count_words(&chars);
            proof {
                assert(word_count(chars@) <= chars@.len()) by {
                    lemma_word_count_bound(chars@);
                }
            }
            Ok(FileInfo { num_lines, num_words, num_bytes: data.len(), num_chars: chars.len() })
        },
    }
}

proof fn lemma_word_count_bound(s: Seq<char>)
    ensures
        word_count(s) <= s.len(),
    decreases s.len(),
{
    if s.len() > 0 {
        lemma_word_count_bound(s.drop_last());
    }
}

/// The sums of the lines, words, bytes and characters of `infos`.
pub open spec fn sums(infos: Seq<FileInfo>) -> (nat, nat, nat, nat)
    decreases infos.len(),
{
    if infos.len() == 0 {
        (0, 0, 0, 0)
    } else {
        let p = sums(infos.drop_last());
        let l = infos.last();
        (
            p.0 + l.num_lines as nat,
            p.1 + l.num_words as nat,
            p.2 + l.num_bytes as nat,
            p.3 + l.num_chars as nat,
        )
    }
}

/// Sums never shrink as more counts come in.
proof fn lemma_sums_grow(infos: Seq<FileInfo>, i: int)
    requires
        0 <= i <= infos.len(),
    ensures
        sums(infos.take(i)).0 <= sums(infos).0,
        sums(infos.take(i)).1 <= sums(infos).1,
        sums(infos.take(i)).2 <= sums(infos).2,
        sums(infos.take(i)).3 <= sums(infos).3,
    decreases infos.len() - i,
{
    if i < infos.len() {
        lemma_sums_grow(infos, i + 1);
        assert(infos.take(i + 1).drop_last() =~= infos.take(i));
    } else {
        assert(infos.take(i) =~= infos);
    }
}

/// Every sum of the counts of `infos` fits a `usize`.
pub open spec fn sums_fit(infos: Seq<FileInfo>) -> bool {
    let s = sums(infos);
    s.0 <= usize::MAX && s.1 <= usize::MAX && s.2 <= usize::MAX && s.3 <= usize::MAX
}

/// The counts of all of `infos` together, field by field; `None` when a sum
/// does not fit a `usize`.
pub fn total(infos: &Vec<FileInfo>) -> (r: Option<FileInfo>)
    ensures
        r is Some == sums_fit(infos@),
        r matches Some(t) ==> sums(infos@) == (
            t.num_lines as nat,
            t.num_words as nat,
            t.num_bytes as nat,
            t.num_chars as nat,
        ),
{
    let mut t = FileInfo { num_lines: 0, num_words: 0, num_bytes: 0, num_chars: 0 };
    let mut k: usize = 0;
    while k < infos.len()
        invariant
            k <= infos.len(),
            sums(infos@.take(k as int)) == (
                t.num_lines as nat,
                t.num_words as nat,
                t.num_bytes as nat,
                t.num_chars as nat,
            ),
        decreases infos.len() - k,
    {
        assert(infos@.take(k + 1).drop_last() =~= infos@.take(k as int));
        let info = infos[k];
        proof {
            lemma_sums_grow(infos@, k + 1);
        }
        let l = t.num_lines.checked_add(info.num_lines);
        let w = t.num_words.checked_add(info.num_words);
        let b = t.num_bytes.checked_add(info.num_bytes);
        let c = t.num_chars.checked_add(info.num_chars);
        match (l, w, b, c) {
            (Some(l), Some(w), Some(b), Some(c)) => {
                t = FileInfo { num_lines: l, num_words: w, num_bytes: b, num_chars: c };
            },
            _ => {
                return None;
            },
        }
        k = k + 1;
    }
    assert(infos@.take(k as int) =~= infos@);
    Some(t)
}

/// The name a file is shown under: none for standard input, `-`.
pub open spec fn shown_name(filename: Seq<char>) -> Seq<char> {
    if filename == seq!['-'] {
        Seq::empty()
    } else {
        filename
    }
}

/// One column of `wc`: when `shown`, the count `n` right-aligned in 8
/// columns and a space; otherwise nothing.
pub open spec fn column(shown: bool, n: usize) -> Seq<char> {
    if shown {
        pad_left(decimal(n as nat), 8) + seq![' ']
    } else {
        Seq::empty()
    }
}

/// The line `wc` shows under `config`: the counts of lines, words, bytes
/// and characters that `config` asks for, in that order, each right-aligned
/// in 8 columns and followed by a space; then `name`.
pub open spec fn counts_line(info: FileInfo, config: &Config, name: Seq<char>) -> Seq<char> {
    column(config.lines, info.num_lines) + column(config.words, info.num_words) + column(
        config.bytes,
        info.num_bytes,
    ) + column(config.chars, info.num_chars) + name
}

/// Appends the column of `n` when `shown`.
fn push_column(out: &mut Vec<char>, shown: bool, n: usize)
    ensures
        final(out)@ == old(out)@ + column(shown, n),
{
    if shown {
        push_padded(out, n as u64, 8);
        out.push(' ');
        assert(out@ =~= old(out)@ + column(shown, n));
    } else {
        assert(out@ =~= old(out)@ + column(shown, n));
    }
}

/// Appends the counts of `info` that `config` asks for.
fn push_counts(out: &mut Vec<char>, info: &FileInfo, config: &Config)
    ensures
        final(out)@ == old(out)@ + counts_line(*info, config, Seq::empty()),
{
    push_column(out, config.lines, info.num_lines);
    push_column(out, config.words, info.num_words);
    push_column(out, config.bytes, info.num_bytes);
    push_column(out, config.chars, info.num_chars);
    assert(out@ =~= old(out)@ + counts_line(*info, config, Seq::empty()));
}

/// The line `wc` shows under `config` for the file `filename`, whose counts
/// are `info`; standard input, `-`, goes without a name.
pub fn format_counts(info: &FileInfo, config: &Config, filename: &str) -> (r: String)
    ensures
        r@ == counts_line(*info, config, shown_name(filename@)),
{
    let mut out: Vec<char> = Vec::new();
    push_counts(&mut out, info, config);
    let name = chars_of(filename);
    let is_stdin = name.len() == 1 && name[0] == '-';
    assert(is_stdin == (filename@ == seq!['-'])) by {
        if is_stdin {
            assert(name@ =~= seq!['-']);
        }
    }
    if !is_stdin {
        push_str(&mut out, filename);
    }
    assert(out@ =~= counts_line(*info, config, shown_name(filename@)));
    string_of(&out)
}

/// The line `wc` shows under `config` for the total of several files.
pub fn format_total(info: &FileInfo, config: &Config) -> (r: String)
    ensures
        r@ == counts_line(*info, config, "total"@),
{
    let mut out: Vec<char> = Vec::new();
    push_counts(&mut out, info, config);
    push_str(&mut out, "total");
    assert(out@ =~= counts_line(*info, config, "total"@));
    string_of(&out)
}

} // verus!
