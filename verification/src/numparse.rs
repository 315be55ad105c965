//! Decimal integers written in text, read as `str::parse` reads them for
//! `i64` and `usize`: an optional sign, then one or more ASCII digits, and
//! nothing else.

use vstd::prelude::*;
use crate::text::{decimal, digit_char};

verus! {

/// An ASCII digit, `'0'` to `'9'`.
pub open spec fn is_digit(c: char) -> bool {
    48 <= (c as u32) <= 57
}

/// Every character of `s` is an ASCII digit.
pub open spec fn all_digits(s: Seq<char>) -> bool {
    forall|i: int| 0 <= i < s.len() ==> is_digit(#[trigger] s[i])
}

/// The value of the digits `s`, read in base ten.
pub open spec fn digits_value(s: Seq<char>) -> nat
    decreases s.len(),
{
    if s.len() == 0 {
        0
    } else {
        digits_value(s.drop_last()) * 10 + ((s.last() as u32) - 48) as nat
    }
}

/// What `s.parse::<i64>()` gives: `Some` of the value when `s` is an optional
/// `+` or `-` followed by at least one ASCII digit and the value fits.
pub open spec fn parse_i64_spec(s: Seq<char>) -> Option<i64> {
    if s.len() == 0 {
        None
    } else {
        let signed = s[0] == '+' || s[0] == '-';
        let digits = if signed { s.skip(1) } else { s };
        let v: int = if s[0] == '-' { -digits_value(digits) } else { digits_value(digits) as int };
        if digits.len() == 0 || !all_digits(digits) {
            None
        } else if i64::MIN <= v <= i64::MAX {
            Some(v as i64)
        } else {
            None
        }
    }
}

/// What `s.parse::<usize>()` gives: `Some` of the value when `s` is an
/// optional `+` followed by at least one ASCII digit and the value fits.
pub open spec fn parse_usize_spec(s: Seq<char>) -> Option<usize> {
    let digits = if s.len() > 0 && s[0] == '+' { s.skip(1) } else { s };
    if digits.len() == 0 || !all_digits(digits) {
        None
    } else if digits_value(digits) <= usize::MAX {
        Some(digits_value(digits) as usize)
    } else {
        None
    }
}

/// Digits never lose value when more digits follow.
proof fn lemma_digits_value_grows(s: Seq<char>, i: int)
    requires
        0 <= i <= s.len(),
        all_digits(s),
    ensures
        digits_value(s.take(i)) <= digits_value(s),
    decreases s.len() - i,
{
    if i < s.len() {
        lemma_digits_value_grows(s, i + 1);
        assert(s.take(i + 1).drop_last() =~= s.take(i));
    } else {
        assert(s.take(i) =~= s);
    }
}

/// Reads `s[start..]` as digits: `Some` of their value when there is at least
/// one, all are ASCII digits and the value is at most `bound`.
fn parse_digits(s: &Vec<char>, start: usize, bound: u64) -> (r: Option<u64>)
    requires
        start <= s.len(),
    ensures
        ({
            let d = s@.subrange(start as int, s.len() as int);
            r == if d.len() > 0 && all_digits(d) && digits_value(d) <= bound {
                Some(digits_value(d) as u64)
            } else {
                None
            }
        }),
{
    let ghost d = s@.subrange(start as int, s.len() as int);
    if start == s.len() {
        return None;
    }
    let mut acc: u64 = 0;
    let mut i = start;
    while i < s.len()
        invariant
            start <= i <= s.len(),
            d == s@.subrange(start as int, s.len() as int),
            all_digits(d.take(i - start)),
            acc == digits_value(d.take(i - start)),
            acc <= bound,
        decreases s.len() - i,
    {
        let c = s[i];
        let u = c as u32;
        if u < 48 || u > 57 {
            assert(d[i - start] == c);
            return None;
        }
        assert(d.take(i + 1 - start).drop_last() =~= d.take(i - start));
        let next: u128 = (acc as u128) * 10 + ((u - 48) as u128);
        if next > bound as u128 {
            proof {
                if all_digits(d) {
                    lemma_digits_value_grows(d, i + 1 - start);
                }
            }
            return None;
        }
        acc = next as u64;
        i = i + 1;
    }
    assert(d.take(i - start) =~= d);
    Some(acc)
}

/// Reads `s` as `s.parse::<i64>()` does.
pub fn parse_i64(s: &Vec<char>) -> (r: Option<i64>)
    ensures
        r == parse_i64_spec(s@),
{
    if s.len() == 0 {
        return None;
    }
    let first = s[0];
    let signed = first == '+' || first == '-';
    let start: usize = if signed { 1 } else { 0 };
    assert(s@.subrange(start as int, s.len() as int) =~= if signed { s@.skip(1) } else { s@ });
    if first == '-' {
        match parse_digits(s, start, 0x8000_0000_0000_0000u64) {
            Some(m) => {
                if m == 0x8000_0000_0000_0000u64 {
                    Some(i64::MIN)
                } else {
                    Some(-(m as i64))
                }
            },
            None => None,
        }
    } else {
        match parse_digits(s, start, 0x7fff_ffff_ffff_ffffu64) {
            Some(m) => Some(m as i64),
            None => None,
        }
    }
}

/// Reads `s` as `s.parse::<usize>()` does.
pub fn parse_usize(s: &Vec<char>) -> (r: Option<usize>)
    ensures
        r == parse_usize_spec(s@),
{
    let start: usize = if s.len() > 0 && s[0] == '+' { 1 } else { 0 };
    assert(s@.subrange(start as int, s.len() as int) =~= if start == 1 { s@.skip(1) } else { s@ });
    match parse_digits(s, start, usize::MAX as u64) {
        Some(m) => Some(m as usize),
        None => None,
    }
}

proof fn lemma_digit_char(d: nat)
    requires
        d < 10,
    ensures
        digit_char(d) as u32 == d + 48,
{
}

/// The decimal representation of a number is read back as that number.
proof fn lemma_decimal_digits(n: nat)
    ensures
        decimal(n).len() > 0,
        all_digits(decimal(n)),
        digits_value(decimal(n)) == n,
    decreases n,
{
    if n < 10 {
        lemma_digit_char(n);
        assert(decimal(n).drop_last() =~= Seq::<char>::empty());
        assert(digits_value(decimal(n)) == digits_value(Seq::<char>::empty()) * 10 + n);
    } else {
        lemma_decimal_digits(n / 10);
        lemma_digit_char(n % 10);
        let s = decimal(n);
        assert(s.drop_last() =~= decimal(n / 10));
        assert(digits_value(s) == digits_value(decimal(n / 10)) * 10 + n % 10);
        assert((n / 10) * 10 + n % 10 == n) by (nonlinear_arith);
        assert forall|i: int| 0 <= i < s.len() implies is_digit(#[trigger] s[i]) by {
            if i < s.len() - 1 {
                assert(s[i] == decimal(n / 10)[i]);
            }
        }
    }
}

/// Law: reading back the decimal rendering of a `usize` gives that `usize`.
pub proof fn lemma_parse_usize_decimal(n: usize)
    ensures
        parse_usize_spec(decimal(n as nat)) == Some(n),
{
    lemma_decimal_digits(n as nat);
    assert(is_digit(decimal(n as nat)[0]));
}

/// Law: reading back the decimal rendering of a non-negative `i64` gives that `i64`.
pub proof fn lemma_parse_i64_decimal(n: i64)
    requires
        n >= 0,
    ensures
        parse_i64_spec(decimal(n as nat)) == Some(n),
{
    lemma_decimal_digits(n as nat);
    assert(is_digit(decimal(n as nat)[0]));
}

} // verus!
