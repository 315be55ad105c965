//! `tail`: the last lines or bytes of a text.

use vstd::prelude::*;
use crate::lines::{
    lines_of, split_lines, count_lines, lemma_lines_basic, lemma_lines_flatten, lemma_lines_of_flatten,
    lemma_well_formed_skip,
};
use crate::numparse::{parse_i64, parse_i64_spec};
use crate::pattern::{captures_in, regex_accepts, regex_captures};
use crate::text::chars_of;

verus! {

/// How much of a text to show. `TakeNum(n)` with `n < 0` asks for the last
/// `-n` lines (or bytes), with `n > 0` for everything from the `n`-th on,
/// counted from 1; `PlusZero` (written `+0`) asks for all of it.
#[derive(Debug, Clone, Copy, PartialEq, Eq, Structural)]
pub enum TakeValue {
    PlusZero,
    TakeNum(i64),
}

/// What `tail` was asked to do.
#[derive(Debug)]
pub struct Config {
    pub files: Vec<String>,
    pub lines: TakeValue,
    pub bytes: Option<TakeValue>,
    pub quiet: bool,
}

/// A result of reading a count, with its error text taken by its characters.
pub open spec fn result_view(r: &Result<TakeValue, String>) -> Result<TakeValue, Seq<char>> {
    match r {
        Ok(t) => Ok(*t),
        Err(e) => Err(e@),
    }
}

/// The pattern a count is matched against: an optional sign, then digits.
pub open spec fn num_pattern() -> Seq<char> {
    "^([+-])?(\\d+)$"@
}

/// The count that the capture `groups` of `num_pattern` in `val` stand for.
/// With no match, `val` is refused. The sign is group 1, `-` when it is
/// missing; the digits are group 2. Sign and digits, read as an `i64`, give
/// `TakeNum` of the value, except that `+0` gives `PlusZero`; when they do not
/// read as an `i64`, or group 2 is missing, `val` is refused.
pub open spec fn num_from_groups(val: Seq<char>, groups: Option<Seq<Option<Seq<char>>>>) -> Result<
    TakeValue,
    Seq<char>,
> {
    match groups {
        None => Err(val),
        Some(g) => {
            let sign = if g.len() > 1 && g[1] is Some {
                g[1]->0
            } else {
                seq!['-']
            };
            if g.len() > 2 && g[2] is Some {
                match parse_i64_spec(sign + g[2]->0) {
                    Some(v) => if sign == seq!['+'] && v == 0 {
                        Ok(TakeValue::PlusZero)
                    } else {
                        Ok(TakeValue::TakeNum(v))
                    },
                    None => Err(val),
                }
            } else {
                Err(val)
            }
        },
    }
}

/// What `parse_num` gives for `val`.
pub open spec fn parse_num_spec(val: Seq<char>) -> Result<TakeValue, Seq<char>> {
    if regex_accepts(num_pattern()) {
        num_from_groups(val, regex_captures(num_pattern(), val))
    } else {
        Err(val)
    }
}

/// Turns the capture groups that `num_pattern` found in `val` into a count.
pub fn take_value_from_groups(val: &str, groups: &Option<Vec<Option<String>>>) -> (r: Result<
    TakeValue,
    String,
>)
    ensures
        result_view(&r) == num_from_groups(val@, groups.deep_view()),
{
    match groups {
        None => Err(val.to_owned()),
        Some(g) => {
            let ghost gv = g.deep_view();
            let mut num: Vec<char> = if g.len() > 1 {
                match &g[1] {
                    Some(s) => chars_of(s.as_str()),
                    None => vec!['-'],
                }
            } else {
                vec!['-']
            };
            let ghost sign = num@;
            assert(sign == if gv.len() > 1 && gv[1] is Some {
                gv[1]->0
            } else {
                seq!['-']
            });
            let plus = num.len() == 1 && num[0] == '+';
            assert(plus == (sign == seq!['+'])) by {
                if num.len() == 1 && num[0] == '+' {
                    assert(sign =~= seq!['+']);
                }
            }
            if g.len() > 2 {
                match &g[2] {
                    Some(d) => {
                        let mut digits = chars_of(d.as_str());
                        num.append(&mut digits);
                        match parse_i64(&num) {
                            Some(v) => {
                                if plus && v == 0 {
                                    Ok(TakeValue::PlusZero)
                                } else {
                                    Ok(TakeValue::TakeNum(v))
                                }
                            },
                            None => Err(val.to_owned()),
                        }
                    },
                    None => Err(val.to_owned()),
                }
            } else {
                Err(val.to_owned())
            }
        },
    }
}

/// Reads a count of lines or bytes, as `tail -n` and `tail -c` take it: a
/// number without sign counts from the end, `+` counts from the start, and
/// `+0` stands for all. What is refused comes back as the error.
pub fn parse_num(val: &str) -> (r: Result<TakeValue, String>)
    ensures
        result_view(&r) == parse_num_spec(val@),
{
    match captures_in("^([+-])?(\\d+)$", val) {
        None => Err(val.to_owned()),
        Some(groups) => take_value_from_groups(val, &groups),
    }
}

/// Counts the lines and the bytes of `data`.
pub fn count_lines_bytes(data: &[u8]) -> (r: (i64, i64))
    requires
        data.len() <= i64::MAX,
    ensures
        r.0 == lines_of(data@).len(),
        r.1 == data.len(),
{
    let n = count_lines(data);
    proof {
        lemma_lines_basic(data@);
    }
    (n as i64, data.len() as i64)
}

/// Where the output starts, as an index from 0, for `take_value` in a text
/// of `total` lines (or bytes); `None` when nothing is to be shown.
pub open spec fn start_index(take_value: TakeValue, total: i64) -> Option<u64> {
    match take_value {
        TakeValue::PlusZero => if total > 0 {
            Some(0u64)
        } else {
            None
        },
        TakeValue::TakeNum(num) => if num == 0 || total == 0 || num > total {
            None
        } else {
            let start: int = if num < 0 {
                total + num
            } else {
                num - 1
            };
            Some(
                if start < 0 {
                    0u64
                } else {
                    start as u64
                },
            )
        },
    }
}

/// The inputs on which `get_start_index` computes without overflow.
pub open spec fn start_index_in_range(take_value: TakeValue, total: i64) -> bool {
    match take_value {
        TakeValue::TakeNum(num) => num < 0 && total != 0 && num <= total ==> total + num
            >= i64::MIN,
        TakeValue::PlusZero => true,
    }
}

/// Where the output starts, as an index from 0; `None` when nothing is to be shown.
pub fn get_start_index(take_value: &TakeValue, total: i64) -> (r: Option<u64>)
    requires
        start_index_in_range(*take_value, total),
    ensures
        r == start_index(*take_value, total),
{
    match take_value {
        TakeValue::PlusZero => {
            if total > 0 {
                Some(0)
            } else {
                None
            }
        },
        TakeValue::TakeNum(num) => {
            let num = *num;
            if num == 0 || total == 0 || num > total {
                None
            } else {
                let start = if num < 0 {
                    total + num
                } else {
                    num - 1
                };
                Some(
                    if start < 0 {
                        0
                    } else {
                        start as u64
                    },
                )
            }
        },
    }
}

/// What `tail` shows of the lines of `data`: the lines from the start index on.
pub open spec fn tail_lines_spec(data: Seq<u8>, take_value: TakeValue, total: i64) -> Seq<u8> {
    match start_index(take_value, total) {
        Some(start) => if start < lines_of(data).len() {
            lines_of(data).skip(start as int).flatten()
        } else {
            Seq::empty()
        },
        None => Seq::empty(),
    }
}

/// What `tail` shows of the bytes of `data`: the bytes from the start index on.
pub open spec fn tail_bytes_spec(data: Seq<u8>, take_value: TakeValue, total: i64) -> Seq<u8> {
    match start_index(take_value, total) {
        Some(start) => if start < data.len() {
            data.skip(start as int)
        } else {
            Seq::empty()
        },
        None => Seq::empty(),
    }
}

/// The lines of `data` that `tail` shows, put together, where `data` is
/// taken to hold `total_lines` lines.
pub fn tail_lines(data: &[u8], take_value: &TakeValue, total_lines: i64) -> (r: Vec<u8>)
    requires
        start_index_in_range(*take_value, total_lines),
    ensures
        r@ == tail_lines_spec(data@, *take_value, total_lines),
{
    let mut out: Vec<u8> = Vec::new();
    match get_start_index(take_value, total_lines) {
        None => out,
        Some(start) => {
            let lines = split_lines(data);
            let ghost ls = lines.deep_view();
            if start >= lines.len() as u64 {
                return out;
            }
            let s = start as usize;
            let mut k = s;
            assert(ls.subrange(s as int, k as int) =~= Seq::<Seq<u8>>::empty());
            while k < lines.len()
                invariant
                    s <= k <= lines.len(),
                    ls == lines.deep_view(),
                    out@ == ls.subrange(s as int, k as int).flatten(),
                decreases lines.len() - k,
            {
                assert(lines@[k as int].deep_view() =~= lines@[k as int]@);
                assert(ls.subrange(s as int, k + 1) =~= ls.subrange(s as int, k as int).push(
                    ls[k as int],
                ));
                let ghost before = out@;
                out.extend_from_slice(lines[k].as_slice());
                assert(ls[k as int] == lines@[k as int].deep_view());
                assert(out@ == before + ls[k as int]);
                proof {
                    ls.subrange(s as int, k as int).lemma_flatten_push(ls[k as int]);
                }
                k = k + 1;
            }
            assert(ls.subrange(s as int, k as int) =~= ls.skip(s as int));
            out
        },
    }
}

/// The bytes of `data` that `tail` shows, where `data` is taken to hold
/// `total_bytes` bytes.
pub fn tail_bytes(data: &[u8], take_value: &TakeValue, total_bytes: i64) -> (r: Vec<u8>)
    requires
        start_index_in_range(*take_value, total_bytes),
    ensures
        r@ == tail_bytes_spec(data@, *take_value, total_bytes),
{
    let mut out: Vec<u8> = Vec::new();
    match get_start_index(take_value, total_bytes) {
        None => out,
        Some(start) => {
            if start >= data.len() as u64 {
                return out;
            }
            let s = start as usize;
            let mut k = s;
            while k < data.len()
                invariant
                    s <= k <= data.len(),
                    out@ == data@.subrange(s as int, k as int),
                decreases data.len() - k,
            {
                out.push(data[k]);
                assert(out@ =~= data@.subrange(s as int, k + 1));
                k = k + 1;
            }
            assert(out@ =~= data@.skip(s as int));
            out
        },
    }
}

/// The header line that goes before a file's output, if any.
pub open spec fn header_spec(file_num: nat, num_files: nat, quiet: bool, filename: Seq<char>) -> Option<
    Seq<char>,
> {
    if !quiet && num_files > 1 {
        Some(
            (if file_num > 0 {
                seq!['\n']
            } else {
                Seq::empty()
            }) + "==> "@ + filename + " <=="@,
        )
    } else {
        None
    }
}

/// The header line that goes before the output of the file `filename`, the
/// `file_num`-th (from 0) of `num_files`: none when `quiet` or when there is
/// a single file; otherwise `==> filename <==`, after an empty line for every
/// file but the first.
pub fn header(file_num: usize, num_files: usize, quiet: bool, filename: &str) -> (r: Option<String>)
    ensures
        r.deep_view() == header_spec(file_num as nat, num_files as nat, quiet, filename@),
{
    if !quiet && num_files > 1 {
        let mut h = String::new();
        if file_num > 0 {
            h.append("\n");
            proof {
                reveal_strlit("\n");
            }
        }
        h.append("==> ");
        h.append(filename);
        h.append(" <==");
        Some(h)
    } else {
        None
    }
}

/// Law: asked for `+0`, or to start from the first line, `tail` shows the
/// whole text.
pub proof fn lemma_tail_whole(data: Seq<u8>)
    requires
        data.len() > 0,
        data.len() <= i64::MAX,
    ensures
        tail_lines_spec(data, TakeValue::PlusZero, lines_of(data).len() as i64) == data,
        tail_lines_spec(data, TakeValue::TakeNum(1), lines_of(data).len() as i64) == data,
        tail_bytes_spec(data, TakeValue::PlusZero, data.len() as i64) == data,
        tail_bytes_spec(data, TakeValue::TakeNum(1), data.len() as i64) == data,
{
    lemma_lines_basic(data);
    lemma_lines_flatten(data);
    assert(lines_of(data).len() <= i64::MAX);
    assert(lines_of(data).skip(0) =~= lines_of(data));
    assert(data.skip(0) =~= data);
}

/// Law: asked for the last `k` lines of a text of `lines_of(data).len()`
/// lines, `tail` shows text that is cut into exactly the last `k` lines of
/// `data`, or into all of them when there are fewer.
pub proof fn lemma_tail_last_lines(data: Seq<u8>, k: i64)
    requires
        k > 0,
        lines_of(data).len() <= i64::MAX,
    ensures
        ({
            let n = lines_of(data).len() as int;
            let first = if k < n {
                n - k
            } else {
                0
            };
            lines_of(tail_lines_spec(data, TakeValue::TakeNum((-k) as i64), n as i64)) == lines_of(
                data,
            ).skip(first)
        }),
{
    let ls = lines_of(data);
    let n = ls.len() as int;
    let first = if k < n {
        n - k
    } else {
        0
    };
    lemma_lines_basic(data);
    if n == 0 {
        assert(tail_lines_spec(data, TakeValue::TakeNum((-k) as i64), n as i64) =~= Seq::<u8>::empty());
        assert(data.len() == 0);
        assert(lines_of(Seq::<u8>::empty()) =~= ls.skip(first));
    } else {
        assert(start_index(TakeValue::TakeNum((-k) as i64), n as i64) == Some(first as u64));
        lemma_well_formed_skip(ls, first);
        lemma_lines_of_flatten(ls.skip(first));
    }
}

/// Law: asked for the last `k` bytes of `data`, `tail` shows the last `k`
/// bytes, or all of them when there are fewer.
pub proof fn lemma_tail_last_bytes(data: Seq<u8>, k: i64)
    requires
        k > 0,
        data.len() <= i64::MAX,
    ensures
        tail_bytes_spec(data, TakeValue::TakeNum((-k) as i64), data.len() as i64) == data.skip(
            if k < data.len() {
                data.len() - k
            } else {
                0
            },
        ),
{
    if data.len() == 0 {
        assert(data.skip(0) =~= Seq::<u8>::empty());
    }
}

/// Law: headers appear only when several files are shown and `quiet` is
/// off; the first file's header is `==> name <==`, and every later file's
/// header is the same after an empty line, whatever its number.
pub proof fn lemma_header_shape(file_num: nat, num_files: nat, quiet: bool, filename: Seq<char>)
    ensures
        quiet || num_files <= 1 ==> header_spec(file_num, num_files, quiet, filename) is None,
        !quiet && num_files > 1 && file_num == 0 ==> header_spec(
            file_num,
            num_files,
            quiet,
            filename,
        ) == Some("==> "@ + filename + " <=="@),
        !quiet && num_files > 1 && file_num > 0 ==> header_spec(
            file_num,
            num_files,
            quiet,
            filename,
        ) == Some(seq!['\n'] + ("==> "@ + filename + " <=="@)),
        file_num > 0 ==> header_spec(file_num + 1, num_files, quiet, filename) == header_spec(
            file_num,
            num_files,
            quiet,
            filename,
        ),
{
    let body = "==> "@ + filename + " <=="@;
    assert(Seq::<char>::empty() + "==> "@ + filename + " <=="@ =~= body);
    assert(seq!['\n'] + "==> "@ + filename + " <=="@ =~= seq!['\n'] + body);
}

impl Config {
    /// Builds the configuration from the files, the count of lines, the
    /// count of bytes if one was given, and `quiet`. A count that does not
    /// read is reported as `illegal line count -- ...` or `illegal byte
    /// count -- ...`, the line count first.
    pub fn new(files: Vec<String>, lines: &str, bytes: Option<&str>, quiet: bool) -> (r: Result<
        Config,
        String,
    >)
        ensures
            parse_num_spec(lines@) matches Err(e) ==> r matches Err(m) && m@
                == "illegal line count -- "@ + e,
            parse_num_spec(lines@) matches Ok(l) ==> match bytes {
                None => r matches Ok(c) && c.files == files && c.lines == l && c.bytes
                    == None::<TakeValue> && c.quiet == quiet,
                Some(b) => match parse_num_spec(b@) {
                    Err(e) => r matches Err(m) && m@ == "illegal byte count -- "@ + e,
                    Ok(bv) => r matches Ok(c) && c.files == files && c.lines == l && c.bytes
                        == Some(bv) && c.quiet == quiet,
                },
            },
    {
        let l = match parse_num(lines) {
            Ok(l) => l,
            Err(e) => {
                let mut m = String::new();
                m.append("illegal line count -- ");
                m.append(e.as_str());
                return Err(m);
            },
        };
        let b = match bytes {
            None => None,
            Some(b) => match parse_num(b) {
                Ok(v) => Some(v),
                Err(e) => {
                    let mut m = String::new();
                    m.append("illegal byte count -- ");
                    m.append(e.as_str());
                    return Err(m);
                },
            },
        };
        Ok(Config { files, lines: l, bytes: b, quiet })
    }
}

} // verus!
