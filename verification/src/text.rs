//! Characters, words and decimal numbers.

use vstd::prelude::*;

verus! {

/// The Unicode `White_Space` property, which `char::is_whitespace`,
/// `str::trim_end` and `str::split_whitespace` go by.
pub open spec fn is_white_space(c: char) -> bool {
    let u = c as u32;
    ||| 9 <= u <= 13
    ||| u == 32
    ||| u == 0x85
    ||| u == 0xa0
    ||| u == 0x1680
    ||| 0x2000 <= u <= 0x200a
    ||| u == 0x2028
    ||| u == 0x2029
    ||| u == 0x202f
    ||| u == 0x205f
    ||| u == 0x3000
}

/// Tells whether `c` is white space in the sense of Unicode.
pub fn white_space(c: char) -> (r: bool)
    ensures
        r == is_white_space(c),
{
    let u = c as u32;
    (9 <= u && u <= 13) || u == 32 || u == 0x85 || u == 0xa0 || u == 0x1680 || (0x2000 <= u && u
        <= 0x200a) || u == 0x2028 || u == 0x2029 || u == 0x202f || u == 0x205f || u == 0x3000
}

/// `s` without its trailing white space.
pub open spec fn trim_end(s: Seq<char>) -> Seq<char>
    decreases s.len(),
{
    if s.len() > 0 && is_white_space(s.last()) {
        trim_end(s.drop_last())
    } else {
        s
    }
}

/// The number of words of `s`: maximal runs of characters that are not white space.
pub open spec fn word_count(s: Seq<char>) -> nat
    decreases s.len(),
{
    if s.len() == 0 {
        0
    } else {
        word_count(s.drop_last()) + if !is_white_space(s.last()) && (s.len() == 1 || is_white_space(
            s[s.len() - 2],
        )) {
            1nat
        } else {
            0nat
        }
    }
}

/// Law: `trim_end` drops exactly the trailing white space: what it keeps is
/// a prefix of `s`, everything after that prefix is white space, and the
/// prefix is empty or ends with a character that is not white space.
pub proof fn lemma_trim_end_drops_trailing_white_space(s: Seq<char>)
    ensures
        trim_end(s).len() <= s.len(),
        trim_end(s) == s.take(trim_end(s).len() as int),
        forall|i: int| trim_end(s).len() <= i < s.len() ==> is_white_space(#[trigger] s[i]),
        trim_end(s).len() == 0 || !is_white_space(trim_end(s).last()),
    decreases s.len(),
{
    if s.len() > 0 && is_white_space(s.last()) {
        let d = s.drop_last();
        lemma_trim_end_drops_trailing_white_space(d);
        assert(trim_end(s) == trim_end(d));
        assert(d.take(trim_end(d).len() as int) =~= s.take(trim_end(d).len() as int));
        assert forall|i: int| trim_end(s).len() <= i < s.len() implies is_white_space(
            #[trigger] s[i],
        ) by {
            if i < d.len() {
                assert(s[i] == d[i]);
            }
        }
    } else {
        assert(s.take(s.len() as int) =~= s);
    }
}

/// Law: a text without trailing white space is its own `trim_end`.
pub proof fn lemma_trim_end_keeps_text(s: Seq<char>)
    requires
        s.len() == 0 || !is_white_space(s.last()),
    ensures
        trim_end(s) == s,
{
}

/// Law: a non-empty text without white space is one word, whatever its
/// characters are.
pub proof fn lemma_word_count_one_word(s: Seq<char>)
    requires
        s.len() > 0,
        forall|i: int| 0 <= i < s.len() ==> !is_white_space(#[trigger] s[i]),
    ensures
        word_count(s) == 1,
    decreases s.len(),
{
    if s.len() > 1 {
        let d = s.drop_last();
        assert forall|i: int| 0 <= i < d.len() implies !is_white_space(#[trigger] d[i]) by {
            assert(d[i] == s[i]);
        }
        lemma_word_count_one_word(d);
        assert(!is_white_space(s[s.len() - 2]));
        assert(!is_white_space(s[s.len() - 1]));
    } else {
        assert(s.drop_last() =~= Seq::<char>::empty());
        assert(!is_white_space(s[0]));
        assert(word_count(s.drop_last()) == 0);
    }
}

/// Law: a text of white space alone holds no word.
pub proof fn lemma_word_count_blank(s: Seq<char>)
    requires
        forall|i: int| 0 <= i < s.len() ==> is_white_space(#[trigger] s[i]),
    ensures
        word_count(s) == 0,
    decreases s.len(),
{
    if s.len() > 0 {
        let d = s.drop_last();
        assert forall|i: int| 0 <= i < d.len() implies is_white_space(#[trigger] d[i]) by {
            assert(d[i] == s[i]);
        }
        lemma_word_count_blank(d);
        assert(is_white_space(s[s.len() - 1]));
    }
}

/// Law: words on either side of a white-space character count apart.
pub proof fn lemma_word_count_split(a: Seq<char>, c: char, b: Seq<char>)
    requires
        is_white_space(c),
    ensures
        word_count(a + seq![c] + b) == word_count(a) + word_count(b),
    decreases b.len(),
{
    let x = a + seq![c];
    assert(x.drop_last() =~= a);
    assert(word_count(x) == word_count(a));
    if b.len() == 0 {
        assert(x + b =~= x);
    } else {
        lemma_word_count_split(a, c, b.drop_last());
        let y = x + b;
        assert(y.drop_last() =~= x + b.drop_last());
        assert(y.last() == b.last());
        if b.len() == 1 {
            assert(y[y.len() - 2] == c);
            assert(b.drop_last() =~= Seq::<char>::empty());
        } else {
            assert(y[y.len() - 2] == b[b.len() - 2]);
        }
    }
}

/// The length of `s` once its trailing white space is removed.
pub fn trimmed_len(s: &Vec<char>) -> (n: usize)
    ensures
        n <= s.len(),
        s@.take(n as int) == trim_end(s@),
{
    let mut i = s.len();
    assert(s@.take(i as int) =~= s@);
    while i > 0 && white_space(s[i - 1])
        invariant
            i <= s.len(),
            trim_end(s@.take(i as int)) == trim_end(s@),
        decreases i,
    {
        assert(s@.take(i as int).drop_last() =~= s@.take(i - 1));
        i = i - 1;
    }
    i
}

/// Tells whether `a` and `b` are equal once their trailing white space is removed.
pub fn eq_trimmed(a: &Vec<char>, b: &Vec<char>) -> (r: bool)
    ensures
        r == (trim_end(a@) == trim_end(b@)),
{
    let na = trimmed_len(a);
    let nb = trimmed_len(b);
    if na != nb {
        assert(trim_end(a@).len() != trim_end(b@).len());
        return false;
    }
    let mut i: usize = 0;
    while i < na
        invariant
            na == nb,
            na <= a.len(),
            nb <= b.len(),
            i <= na,
            forall|j: int| 0 <= j < i ==> a@[j] == b@[j],
            a@.take(na as int) == trim_end(a@),
            b@.take(nb as int) == trim_end(b@),
        decreases na - i,
    {
        if a[i] != b[i] {
            assert(trim_end(a@)[i as int] != trim_end(b@)[i as int]);
            return false;
        }
        i = i + 1;
    }
    assert(a@.take(na as int) =~= b@.take(nb as int));
    true
}

/// Counts the words of `s`, as `str::split_whitespace` yields them.
pub fn count_words(s: &Vec<char>) -> (n: usize)
    ensures
        n == word_count(s@),
{
    let mut n: usize = 0;
    let mut i: usize = 0;
    while i < s.len()
        invariant
            i <= s.len(),
            n == word_count(s@.take(i as int)),
            n <= i,
        decreases s.len() - i,
    {
        assert(s@.take(i + 1).drop_last() =~= s@.take(i as int));
        if !white_space(s[i]) && (i == 0 || white_space(s[i - 1])) {
            n = n + 1;
        }
        i = i + 1;
    }
    assert(s@.take(s.len() as int) =~= s@);
    n
}

/// The character of the decimal digit `d`.
pub open spec fn digit_char(d: nat) -> char {
    if d == 0 {
        '0'
    } else if d == 1 {
        '1'
    } else if d == 2 {
        '2'
    } else if d == 3 {
        '3'
    } else if d == 4 {
        '4'
    } else if d == 5 {
        '5'
    } else if d == 6 {
        '6'
    } else if d == 7 {
        '7'
    } else if d == 8 {
        '8'
    } else {
        '9'
    }
}

/// The character of the decimal digit `d`.
fn digit(d: u8) -> (c: char)
    requires
        d < 10,
    ensures
        c == digit_char(d as nat),
{
    match d {
        0 => '0',
        1 => '1',
        2 => '2',
        3 => '3',
        4 => '4',
        5 => '5',
        6 => '6',
        7 => '7',
        8 => '8',
        _ => '9',
    }
}

/// The decimal representation of `n`, without leading zeros.
pub open spec fn decimal(n: nat) -> Seq<char>
    decreases n,
{
    if n < 10 {
        seq![digit_char(n)]
    } else {
        decimal(n / 10).push(digit_char(n % 10))
    }
}

/// `s` with spaces in front, so that it is at least `width` long.
pub open spec fn pad_left(s: Seq<char>, width: nat) -> Seq<char> {
    if s.len() < width {
        Seq::new((width - s.len()) as nat, |i: int| ' ') + s
    } else {
        s
    }
}

/// Appends the decimal representation of `n` to `out`.
pub fn push_decimal(n: u64, out: &mut Vec<char>)
    ensures
        final(out)@ == old(out)@ + decimal(n as nat),
    decreases n,
{
    if n >= 10 {
        push_decimal(n / 10, out);
    }
    out.push(digit((n % 10) as u8));
}

/// The characters of `s`, in order.
pub fn chars_of(s: &str) -> (r: Vec<char>)
    ensures
        r@ == s@,
{
    let mut r: Vec<char> = Vec::new();
    for c in it: s.chars()
        invariant
            r@ == it.seq().take(it.index() as int),
    {
        r.push(c);
    }
    r
}

/// Makes a `String` of the characters `chars`, by `FromIterator<char>` for
/// `String`; trusted to keep the characters as they are, in order.
#[verifier::external_body]
pub(crate) fn string_of(chars: &Vec<char>) -> (r: String)
    ensures
        r@ == chars@,
{
    chars.iter().collect()
}

/// Appends the characters of `s` to `out`.
pub fn push_str(out: &mut Vec<char>, s: &str)
    ensures
        final(out)@ == old(out)@ + s@,
{
    let mut cs = chars_of(s);
    out.append(&mut cs);
}

/// Appends the decimal representation of `n` to `out`, after as many spaces
/// as it takes to fill `width` characters.
pub fn push_padded(out: &mut Vec<char>, n: u64, width: usize)
    ensures
        final(out)@ == old(out)@ + pad_left(decimal(n as nat), width as nat),
{
    let mut digits: Vec<char> = Vec::new();
    push_decimal(n, &mut digits);
    assert(digits@ =~= decimal(n as nat));
    let mut k = digits.len();
    while k < width
        invariant
            digits.len() <= k <= width || k == digits.len(),
            out@ == old(out)@ + Seq::new((k - digits.len()) as nat, |i: int| ' '),
        decreases width - k,
    {
        out.push(' ');
        assert(out@ =~= old(out)@ + Seq::new((k + 1 - digits.len()) as nat, |i: int| ' '));
        k = k + 1;
    }
    let ghost spaces = out@;
    out.append(&mut digits);
    proof {
        if decimal(n as nat).len() < width {
            assert(out@ =~= old(out)@ + pad_left(decimal(n as nat), width as nat));
        } else {
            assert(spaces =~= old(out)@);
        }
    }
}

} // verus!
