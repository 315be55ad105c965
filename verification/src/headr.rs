//! `head`: the first lines or bytes of a text.

use vstd::prelude::*;
use crate::lines::{lines_of, split_lines, lemma_lines_flatten};
use crate::numparse::{parse_usize, parse_usize_spec};
use crate::text::chars_of;

verus! {

/// What `head` was asked to do: how many lines, or, when given, how many bytes.
#[derive(Debug)]
pub struct Config {
    pub files: Vec<String>,
    pub lines: usize,
    pub bytes: Option<usize>,
}

/// What `parse_positive_int` gives for `val`: the number it reads as, when
/// that is above zero; otherwise `val` itself, as the error.
pub open spec fn positive_int_spec(val: Seq<char>) -> Result<usize, Seq<char>> {
    match parse_usize_spec(val) {
        Some(n) => if n > 0 {
            Ok(n)
        } else {
            Err(val)
        },
        None => Err(val),
    }
}

/// A result of reading a number, with its error text taken by its characters.
pub open spec fn result_view(r: &Result<usize, String>) -> Result<usize, Seq<char>> {
    match r {
        Ok(n) => Ok(*n),
        Err(e) => Err(e@),
    }
}

/// Reads a count above zero, as `str::parse::<usize>` reads numbers; what
/// is refused comes back as the error.
pub fn parse_positive_int(val: &str) -> (r: Result<usize, String>)
    ensures
        result_view(&r) == positive_int_spec(val@),
{
    let chars = chars_of(val);
    match parse_usize(&chars) {
        Some(n) => {
            if n > 0 {
                Ok(n)
            } else {
                Err(val.to_owned())
            }
        },
        None => Err(val.to_owned()),
    }
}

impl Config {
    /// Builds the configuration from the files, the count of lines and the
    /// count of bytes if one was given. A count that does not read is
    /// reported as `illegal line count -- ...` or `illegal byte count --
    /// ...`, the line count first.
    pub fn new(files: Vec<String>, lines: &str, bytes: Option<&str>) -> (r: Result<Config, String>)
        ensures
            positive_int_spec(lines@) matches Err(e) ==> r matches Err(m) && m@
                == "illegal line count -- "@ + e,
            positive_int_spec(lines@) matches Ok(l) ==> match bytes {
                None => r matches Ok(c) && c.files == files && c.lines == l && c.bytes
                    == None::<usize>,
                Some(b) => match positive_int_spec(b@) {
                    Err(e) => r matches Err(m) && m@ == "illegal byte count -- "@ + e,
                    Ok(bv) => r matches Ok(c) && c.files == files && c.lines == l && c.bytes
                        == Some(bv),
                },
            },
    {
        let l = match parse_positive_int(lines) {
            Ok(l) => l,
            Err(e) => {
                let mut m = String::new();
                m.append("illegal line count -- ");
                m.append(e.as_str());
                return Err(m);
            },
        };
        let b = match bytes {
            None => None,
            Some(b) => match parse_positive_int(b) {
                Ok(v) => Some(v),
                Err(e) => {
                    let mut m = String::new();
                    m.append("illegal byte count -- ");
                    m.append(e.as_str());
                    return Err(m);
                },
            },
        };
        Ok(Config { files, lines: l, bytes: b })
    }
}

/// The smaller of `a` and `b`.
pub open spec fn min(a: int, b: int) -> int {
    if a < b {
        a
    } else {
        b
    }
}

/// The first `n` bytes of `data`, or all of them when there are fewer.
pub open spec fn head_bytes_spec(data: Seq<u8>, n: nat) -> Seq<u8> {
    data.take(min(n as int, data.len() as int))
}

/// The first `n` lines of `data`, or all of them when there are fewer.
pub open spec fn head_lines_spec(data: Seq<u8>, n: nat) -> Seq<Seq<u8>> {
    lines_of(data).take(min(n as int, lines_of(data).len() as int))
}

/// Law: asked for at least as many lines as the text holds, `head` shows all
/// of them; asked for fewer, it shows exactly `n`, the first `n` of the
/// text, in order, and together they are the start of the text.
pub proof fn lemma_head_lines_count(data: Seq<u8>, n: nat)
    ensures
        n >= lines_of(data).len() ==> head_lines_spec(data, n) == lines_of(data),
        n < lines_of(data).len() ==> head_lines_spec(data, n).len() == n,
        forall|i: int|
            0 <= i < head_lines_spec(data, n).len() ==> #[trigger] head_lines_spec(data, n)[i]
                == lines_of(data)[i],
        data.take(head_lines_spec(data, n).flatten().len() as int) == head_lines_spec(
            data,
            n,
        ).flatten(),
{
    let ls = lines_of(data);
    let k = min(n as int, ls.len() as int);
    let h = ls.take(k);
    if n >= ls.len() {
        assert(h =~= ls);
    }
    vstd::seq_lib::lemma_flatten_concat(h, ls.skip(k));
    assert(h + ls.skip(k) =~= ls);
    lemma_lines_flatten(data);
    assert(data.take(h.flatten().len() as int) =~= h.flatten());
}

/// Law: asked for at least as many bytes as the text holds, `head` shows the
/// whole text; asked for fewer, it shows exactly the first `n` bytes.
pub proof fn lemma_head_bytes_count(data: Seq<u8>, n: nat)
    ensures
        n >= data.len() ==> head_bytes_spec(data, n) == data,
        n < data.len() ==> head_bytes_spec(data, n).len() == n,
        forall|i: int|
            0 <= i < head_bytes_spec(data, n).len() ==> #[trigger] head_bytes_spec(data, n)[i]
                == data[i],
{
    if n >= data.len() {
        assert(head_bytes_spec(data, n) =~= data);
    }
}

/// The first `n` bytes of `data`, or all of them when there are fewer.
pub fn head_bytes(data: &[u8], n: usize) -> (r: Vec<u8>)
    ensures
        r@ == head_bytes_spec(data@, n as nat),
{
    let end = if n < data.len() {
        n
    } else {
        data.len()
    };
    let mut out: Vec<u8> = Vec::new();
    let mut k: usize = 0;
    while k < end
        invariant
            k <= end <= data.len(),
            out@ == data@.take(k as int),
        decreases end - k,
    {
        out.push(data[k]);
        assert(out@ =~= data@.take(k + 1));
        k = k + 1;
    }
    out
}

/// The first `n` lines of `data`, or all of them when there are fewer, each
/// with its newline when it has one.
pub fn head_lines(data: &[u8], n: usize) -> (r: Vec<Vec<u8>>)
    ensures
        r.deep_view() == head_lines_spec(data@, n as nat),
{
    let mut lines = split_lines(data);
    let ghost ls = lines.deep_view();
    if n < lines.len() {
        lines.truncate(n);
    }
    assert(lines.deep_view() =~= ls.take(min(n as int, ls.len() as int)));
    lines
}

} // verus!
