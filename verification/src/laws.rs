//! Laws that relate the tools to each other.

use vstd::prelude::*;
use crate::headr::{head_bytes_spec, head_lines_spec};
use crate::lines::{lines_of, lemma_lines_flatten, lemma_lines_basic};
use crate::tailr::{tail_bytes_spec, tail_lines_spec, TakeValue};
use crate::wcr::line_count;
use crate::text::{word_count, is_white_space};
use vstd::utf8::{
    valid_utf8, decode_utf8, encode_utf8, encode_scalar, decode_utf8_encode_utf8,
    encode_utf8_decode_utf8, encode_utf8_valid_utf8,
};

verus! {

/// Law: the first `k` lines that `head` shows, followed by what `tail`
/// shows from line `k + 1` on, give back the whole text.
pub proof fn lemma_head_then_tail_lines(data: Seq<u8>, k: nat)
    requires
        k < lines_of(data).len(),
        lines_of(data).len() <= i64::MAX,
    ensures
        head_lines_spec(data, k).flatten() + tail_lines_spec(
            data,
            TakeValue::TakeNum((k + 1) as i64),
            lines_of(data).len() as i64,
        ) == data,
{
    let ls = lines_of(data);
    assert(head_lines_spec(data, k) == ls.take(k as int));
    vstd::seq_lib::lemma_flatten_concat(ls.take(k as int), ls.skip(k as int));
    assert(ls.take(k as int) + ls.skip(k as int) =~= ls);
    lemma_lines_flatten(data);
}

/// Law: the first `k` bytes that `head` shows, followed by what `tail`
/// shows from byte `k + 1` on, give back the whole text.
pub proof fn lemma_head_then_tail_bytes(data: Seq<u8>, k: nat)
    requires
        k < data.len(),
        data.len() <= i64::MAX,
    ensures
        head_bytes_spec(data, k) + tail_bytes_spec(
            data,
            TakeValue::TakeNum((k + 1) as i64),
            data.len() as i64,
        ) == data,
{
    assert(data.take(k as int) + data.skip(k as int) =~= data);
}

/// The UTF-8 encoding of a concatenation is the concatenation of the encodings.
proof fn lemma_encode_concat(a: Seq<char>, b: Seq<char>)
    ensures
        encode_utf8(a + b) == encode_utf8(a) + encode_utf8(b),
    decreases a.len(),
{
    if a.len() == 0 {
        assert(a + b =~= b);
        assert(encode_utf8(a) =~= Seq::<u8>::empty());
        assert(encode_utf8(a) + encode_utf8(b) =~= encode_utf8(b));
    } else {
        lemma_encode_concat(a.drop_first(), b);
        assert((a + b).drop_first() =~= a.drop_first() + b);
        assert((a + b)[0] == a[0]);
        assert(encode_utf8(a + b) =~= encode_scalar(a[0] as u32) + (encode_utf8(a.drop_first())
            + encode_utf8(b)));
    }
}

/// A newline is encoded as the single byte 10, and no other character has
/// a byte 10 in its encoding.
proof fn lemma_encode_newline(c: char)
    ensures
        encode_scalar(c as u32).len() > 0,
        c == '\n' ==> encode_scalar(c as u32) == seq![10u8],
        c != '\n' ==> forall|i: int|
            0 <= i < encode_scalar(c as u32).len() ==> #[trigger] encode_scalar(c as u32)[i] != 10u8,
{
    let u = c as u32;
    vstd::utf8::char_is_scalar(c);
    if u <= 0x7f {
        assert((u & 0x7f) as u8 == u as u8 && (u as u8 == 10u8 <==> u == 10u32)) by (bit_vector)
            requires
                u <= 0x7f,
        ;
        assert(u == 10 <==> c == '\n');
    } else if u <= 0x7ff {
        assert((0xC0u8 | ((u >> 6) & 0x1F) as u8) != 10u8) by (bit_vector);
        assert((0x80u8 | (u & 0x3F) as u8) != 10u8) by (bit_vector);
    } else if u <= 0xffff {
        assert((0xE0u8 | ((u >> 12) & 0x0F) as u8) != 10u8) by (bit_vector);
        assert((0x80u8 | ((u >> 6) & 0x3F) as u8) != 10u8) by (bit_vector);
        assert((0x80u8 | (u & 0x3F) as u8) != 10u8) by (bit_vector);
    } else {
        assert((0xF0u8 | ((u >> 18) & 0x7) as u8) != 10u8) by (bit_vector);
        assert((0x80u8 | ((u >> 12) & 0x3F) as u8) != 10u8) by (bit_vector);
        assert((0x80u8 | ((u >> 6) & 0x3F) as u8) != 10u8) by (bit_vector);
        assert((0x80u8 | (u & 0x3F) as u8) != 10u8) by (bit_vector);
    }
}

/// One more byte adds a line exactly when it is the first byte or follows a newline.
proof fn lemma_lines_len_step(s: Seq<u8>)
    requires
        s.len() > 0,
    ensures
        lines_of(s).len() == lines_of(s.drop_last()).len() + if s.len() == 1 || s[s.len() - 2]
            == 10u8 {
            1int
        } else {
            0int
        },
{
    lemma_lines_basic(s.drop_last());
}

/// Appending bytes that hold a newline at most as their last byte adds one
/// line exactly when the text so far is empty or ends with a newline.
proof fn lemma_lines_len_append(x: Seq<u8>, e: Seq<u8>)
    requires
        e.len() > 0,
        forall|i: int| 0 <= i < e.len() - 1 ==> e[i] != 10u8,
    ensures
        lines_of(x + e).len() == lines_of(x).len() + if x.len() == 0 || x.last() == 10u8 {
            1int
        } else {
            0int
        },
    decreases e.len(),
{
    let s = x + e;
    lemma_lines_len_step(s);
    if e.len() == 1 {
        assert(s.drop_last() =~= x);
        if x.len() > 0 {
            assert(s[s.len() - 2] == x.last());
        }
    } else {
        let d = e.drop_last();
        lemma_lines_len_append(x, d);
        assert(s.drop_last() =~= x + d);
        assert(s[s.len() - 2] == e[e.len() - 2]);
    }
}

/// The lines of the encoding of `c` are as many as the lines `wc` counts in `c`.
proof fn lemma_encoded_line_count(c: Seq<char>)
    ensures
        lines_of(encode_utf8(c)).len() == line_count(c),
        (encode_utf8(c).len() == 0) == (c.len() == 0),
        c.len() > 0 ==> (encode_utf8(c).last() == 10u8) == (c.last() == '\n'),
    decreases c.len(),
{
    if c.len() > 0 {
        let p = c.drop_last();
        lemma_encoded_line_count(p);
        lemma_encode_concat(p, seq![c.last()]);
        assert(p + seq![c.last()] =~= c);
        assert(encode_utf8(seq![c.last()]) =~= encode_scalar(c.last() as u32)) by {
            let one = seq![c.last()];
            assert(one.drop_first() =~= Seq::<char>::empty());
            assert(encode_utf8(one.drop_first()) =~= Seq::<u8>::empty());
            assert(one[0] == c.last());
            assert(encode_utf8(one) == encode_scalar(one[0] as u32) + encode_utf8(one.drop_first()));
        }
        let e = encode_scalar(c.last() as u32);
        lemma_encode_newline(c.last());
        let x = encode_utf8(p);
        assert(encode_utf8(c) == x + e);
        lemma_lines_len_append(x, e);
        if p.len() > 0 {
            assert(c[c.len() - 2] == p.last());
            lemma_encode_newline(p.last());
        }
        assert((x + e).last() == e.last());
    }
}

/// Law: on UTF-8 text, `wc` counts as many lines as `tail` and `head` cut
/// the text into.
pub proof fn lemma_wc_lines_agree(data: Seq<u8>)
    requires
        valid_utf8(data),
    ensures
        line_count(decode_utf8(data)) == lines_of(data).len(),
{
    decode_utf8_encode_utf8(data);
    lemma_encoded_line_count(decode_utf8(data));
}

/// Every character takes at least one byte.
proof fn lemma_encode_len(c: Seq<char>)
    ensures
        encode_utf8(c).len() >= c.len(),
    decreases c.len(),
{
    if c.len() > 0 {
        lemma_encode_len(c.drop_first());
        lemma_encode_newline(c[0]);
    }
}

/// Law: on UTF-8 text, `wc` counts no more characters than bytes.
pub proof fn lemma_wc_chars_within_bytes(data: Seq<u8>)
    requires
        valid_utf8(data),
    ensures
        decode_utf8(data).len() <= data.len(),
{
    decode_utf8_encode_utf8(data);
    lemma_encode_len(decode_utf8(data));
}

/// Lines count apart across a text that ends with a newline.
proof fn lemma_line_count_concat(a: Seq<char>, b: Seq<char>)
    requires
        a.len() == 0 || a.last() == '\n',
    ensures
        line_count(a + b) == line_count(a) + line_count(b),
    decreases b.len(),
{
    if b.len() == 0 {
        assert(a + b =~= a);
    } else {
        lemma_line_count_concat(a, b.drop_last());
        assert((a + b).drop_last() =~= a + b.drop_last());
        if b.len() == 1 {
            assert(b.drop_last() =~= Seq::<char>::empty());
            if a.len() > 0 {
                assert((a + b)[(a + b).len() - 2] == a.last());
            }
        } else {
            assert((a + b)[(a + b).len() - 2] == b[b.len() - 2]);
        }
    }
}

/// Words count apart across a text that ends with white space.
proof fn lemma_word_count_concat(a: Seq<char>, b: Seq<char>)
    requires
        a.len() == 0 || is_white_space(a.last()),
    ensures
        word_count(a + b) == word_count(a) + word_count(b),
    decreases b.len(),
{
    if b.len() == 0 {
        assert(a + b =~= a);
    } else {
        lemma_word_count_concat(a, b.drop_last());
        assert((a + b).drop_last() =~= a + b.drop_last());
        if b.len() == 1 {
            assert(b.drop_last() =~= Seq::<char>::empty());
            if a.len() > 0 {
                assert((a + b)[(a + b).len() - 2] == a.last());
            }
        } else {
            assert((a + b)[(a + b).len() - 2] == b[b.len() - 2]);
        }
    }
}

/// Law: `wc` counts of two texts, the first empty or ending with a newline,
/// add up to the counts of the two put together: lines, words, bytes and
/// characters alike.
pub proof fn lemma_wc_counts_add(a: Seq<u8>, b: Seq<u8>)
    requires
        valid_utf8(a),
        valid_utf8(b),
        a.len() == 0 || a.last() == 10u8,
    ensures
        valid_utf8(a + b),
        decode_utf8(a + b) == decode_utf8(a) + decode_utf8(b),
        line_count(decode_utf8(a + b)) == line_count(decode_utf8(a)) + line_count(decode_utf8(b)),
        word_count(decode_utf8(a + b)) == word_count(decode_utf8(a)) + word_count(decode_utf8(b)),
        decode_utf8(a + b).len() == decode_utf8(a).len() + decode_utf8(b).len(),
        (a + b).len() == a.len() + b.len(),
{
    let ca = decode_utf8(a);
    let cb = decode_utf8(b);
    decode_utf8_encode_utf8(a);
    decode_utf8_encode_utf8(b);
    lemma_encode_concat(ca, cb);
    encode_utf8_valid_utf8(ca + cb);
    encode_utf8_decode_utf8(ca + cb);
    lemma_encoded_line_count(ca);
    if ca.len() > 0 {
        assert(ca.last() == '\n');
        assert(is_white_space(ca.last()));
    }
    lemma_line_count_concat(ca, cb);
    lemma_word_count_concat(ca, cb);
}

} // verus!
