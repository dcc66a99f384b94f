//! Byte-level model of UTF-8 text: the units that the counters walk over.
//!
//! A buffer is read from left to right. Where a well-formed UTF-8 sequence
//! starts, it forms one unit (a character); a byte where none starts forms a
//! unit of its own that is not a character.

use vstd::prelude::*;
use vstd::utf8::*;

verus! {

/// The bytes of `s` from `i` to its end.
pub open spec fn tail(s: Seq<u8>, i: int) -> Seq<u8> {
    s.subrange(i, s.len() as int)
}

/// Length of the well-formed UTF-8 sequence that starts at `i` in `s`, or 0
/// when none starts there.
pub open spec fn unit_len(s: Seq<u8>, i: int) -> int {
    if 0 <= i < s.len() && valid_first_scalar(tail(s, i)) {
        length_of_first_scalar(tail(s, i))
    } else {
        0
    }
}

/// The scalar value of the character that starts at `i` (meaningful when
/// `unit_len(s, i) > 0`).
pub open spec fn unit_scalar(s: Seq<u8>, i: int) -> u32 {
    decode_first_scalar(tail(s, i))
}

/// Decodes the character that starts at `i` in `data`: its length in bytes and
/// its scalar value, or a length of 0 when no well-formed sequence starts there.
pub fn unit_len_at(data: &[u8], i: usize) -> (res: (usize, u32))
    requires
        i < data@.len(),
    ensures
        res.0 as int == unit_len(data@, i as int),
        res.0 > 0 ==> res.1 == unit_scalar(data@, i as int),
        res.0 <= 4,
{
    let ghost t = tail(data@, i as int);
    let n = data.len();
    let b0 = data[i];
    assert(t[0] == b0);
    if b0 <= 0x7f {
        assert(b0 <= 0x7f ==> (b0 & 0x7f) == b0) by (bit_vector);
        return (1, b0 as u32);
    }
    if 0xc0 <= b0 && b0 <= 0xdf {
        if n - i > 1 {
            let b1 = data[i + 1];
            assert(t[1] == b1);
            if 0x80 <= b1 && b1 <= 0xbf {
                let cp: u32 = (((b0 & 0x1f) as u32) << 6) | ((b1 & 0x3f) as u32);
                assert(((((b0 & 0x1f) as u32) << 6) | ((b1 & 0x3f) as u32)) <= 0x7ff)
                    by (bit_vector);
                if 0x80 <= cp {
                    assert(valid_leading_and_continuation_bytes_first_codepoint(t));
                    assert(decode_first_codepoint(t) == cp);
                    assert(length_of_first_codepoint(t) == 2);
                    return (2, cp);
                }
            }
        }
        return (0, 0);
    }
    if 0xe0 <= b0 && b0 <= 0xef {
        if n - i > 2 {
            let b1 = data[i + 1];
            let b2 = data[i + 2];
            assert(t[1] == b1 && t[2] == b2);
            if 0x80 <= b1 && b1 <= 0xbf && 0x80 <= b2 && b2 <= 0xbf {
                let cp: u32 = (((b0 & 0x0f) as u32) << 12) | (((b1 & 0x3f) as u32) << 6) | ((b2
                    & 0x3f) as u32);
                if 0x800 <= cp && !(0xd800 <= cp && cp <= 0xdfff) {
                    assert(valid_leading_and_continuation_bytes_first_codepoint(t));
                    assert(decode_first_codepoint(t) == cp);
                    assert(length_of_first_codepoint(t) == 3);
                    return (3, cp);
                }
            }
        }
        return (0, 0);
    }
    if 0xf0 <= b0 && b0 <= 0xf7 {
        if n - i > 3 {
            let b1 = data[i + 1];
            let b2 = data[i + 2];
            let b3 = data[i + 3];
            assert(t[1] == b1 && t[2] == b2 && t[3] == b3);
            if 0x80 <= b1 && b1 <= 0xbf && 0x80 <= b2 && b2 <= 0xbf && 0x80 <= b3 && b3 <= 0xbf {
                let cp: u32 = (((b0 & 0x07) as u32) << 18) | (((b1 & 0x3f) as u32) << 12) | (((b2
                    & 0x3f) as u32) << 6) | ((b3 & 0x3f) as u32);
                if 0x10000 <= cp && cp <= 0x10ffff {
                    assert(valid_leading_and_continuation_bytes_first_codepoint(t));
                    assert(decode_first_codepoint(t) == cp);
                    assert(length_of_first_codepoint(t) == 4);
                    return (4, cp);
                }
            }
        }
        return (0, 0);
    }
    (0, 0)
}


/// A well-formed sequence never runs past the end of the buffer.
pub proof fn lemma_unit_len_bounds(s: Seq<u8>, i: int)
    ensures
        0 <= unit_len(s, i) <= 4,
        unit_len(s, i) > 0 ==> i + unit_len(s, i) <= s.len(),
{
}

/// Bytes the walk advances over at `i`: a whole character, or a single byte
/// where no character starts.
pub open spec fn step(s: Seq<u8>, i: int) -> int {
    if unit_len(s, i) > 0 {
        unit_len(s, i)
    } else {
        1
    }
}

/// Number of characters met when the buffer is walked from `i` to its end.
pub open spec fn char_count_from(s: Seq<u8>, i: int) -> nat
    decreases s.len() - i,
{
    if i < 0 || i >= s.len() {
        0
    } else {
        proof {
            lemma_unit_len_bounds(s, i);
        }
        (if unit_len(s, i) > 0 {
            1nat
        } else {
            0nat
        }) + char_count_from(s, i + step(s, i))
    }
}

/// Number of well-formed UTF-8 sequences in `s`, read from the left; a byte
/// that belongs to none counts for nothing.
pub open spec fn char_count(s: Seq<u8>) -> nat {
    char_count_from(s, 0)
}

/// Whether cutting a buffer just before `b` keeps every character whole.
pub open spec fn starts_clean(b: Seq<u8>) -> bool {
    b.len() == 0 || !is_continuation_byte(b[0])
}

/// Only bytes inside `s` are read when a unit is decoded at `i`.
pub proof fn lemma_unit_len_concat(a: Seq<u8>, b: Seq<u8>, i: int)
    requires
        0 <= i < a.len(),
        starts_clean(b),
    ensures
        unit_len(a + b, i) == unit_len(a, i),
        unit_len(a, i) > 0 ==> unit_scalar(a + b, i) == unit_scalar(a, i),
{
    let t1 = tail(a + b, i);
    let t2 = tail(a, i);
    assert(t1 =~= t2 + b);
    assert forall|k: int| 0 <= k < t2.len() implies t1[k] == t2[k] by {}
    if t2.len() < t1.len() {
        assert(t1[t2.len() as int] == b[0]);
    }
}

/// Decoding at an offset into the second part of a buffer reads that part alone.
pub proof fn lemma_unit_len_shift(a: Seq<u8>, b: Seq<u8>, j: int)
    requires
        0 <= j < b.len(),
    ensures
        unit_len(a + b, a.len() + j) == unit_len(b, j),
        unit_scalar(a + b, a.len() + j) == unit_scalar(b, j),
{
    assert(tail(a + b, a.len() + j) =~= tail(b, j));
}

proof fn lemma_char_count_shift(a: Seq<u8>, b: Seq<u8>, j: int)
    requires
        0 <= j <= b.len(),
    ensures
        char_count_from(a + b, a.len() + j) == char_count_from(b, j),
    decreases b.len() - j,
{
    if j < b.len() {
        lemma_unit_len_shift(a, b, j);
        lemma_unit_len_bounds(b, j);
        lemma_char_count_shift(a, b, j + step(b, j));
    }
}

proof fn lemma_char_count_concat_from(a: Seq<u8>, b: Seq<u8>, i: int)
    requires
        0 <= i <= a.len(),
        starts_clean(b),
    ensures
        char_count_from(a + b, i) == char_count_from(a, i) + char_count(b),
    decreases a.len() - i,
{
    if i == a.len() {
        lemma_char_count_shift(a, b, 0);
    } else {
        lemma_unit_len_concat(a, b, i);
        lemma_unit_len_bounds(a, i);
        lemma_char_count_concat_from(a, b, i + step(a, i));
    }
}

/// Characters are counted piecewise: cutting a buffer at a byte that does not
/// continue a character splits the count into the counts of the two parts.
pub proof fn lemma_char_count_concat(a: Seq<u8>, b: Seq<u8>)
    requires
        starts_clean(b),
    ensures
        char_count(a + b) == char_count(a) + char_count(b),
{
    lemma_char_count_concat_from(a, b, 0);
}

proof fn lemma_char_count_from_le(s: Seq<u8>, i: int)
    requires
        0 <= i <= s.len(),
    ensures
        char_count_from(s, i) <= s.len() - i,
    decreases s.len() - i,
{
    if i < s.len() {
        lemma_unit_len_bounds(s, i);
        lemma_char_count_from_le(s, i + step(s, i));
    }
}

/// There are never more characters than bytes.
pub proof fn lemma_char_count_le(s: Seq<u8>)
    ensures
        char_count(s) <= s.len(),
{
    lemma_char_count_from_le(s, 0);
}


proof fn lemma_char_count_valid_from(s: Seq<u8>, i: int)
    requires
        0 <= i <= s.len(),
        valid_utf8(tail(s, i)),
    ensures
        char_count_from(s, i) == decode_utf8(tail(s, i)).len(),
    decreases s.len() - i,
{
    if i < s.len() {
        lemma_unit_len_bounds(s, i);
        let t = tail(s, i);
        assert(pop_first_scalar(t) =~= tail(s, i + unit_len(s, i)));
        lemma_char_count_valid_from(s, i + unit_len(s, i));
    } else {
        assert(tail(s, i).len() == 0);
    }
}

/// On well-formed UTF-8, the count of characters is the length of the text
/// the bytes encode.
pub proof fn lemma_char_count_valid(s: Seq<u8>)
    requires
        valid_utf8(s),
    ensures
        char_count(s) == decode_utf8(s).len(),
{
    assert(tail(s, 0) =~= s);
    lemma_char_count_valid_from(s, 0);
}

} // verus!
