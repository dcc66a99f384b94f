//! Converting between well-formed UTF-8 bytes and characters.

use vstd::prelude::*;
use vstd::utf8::*;
use crate::text::{lemma_unit_len_bounds, tail, unit_len, unit_len_at, unit_scalar};

verus! {

/// `char::from_u32`: the character with scalar value `cp`, or `None` when
/// `cp` is not a Unicode scalar value. The contract restates that documented
/// behaviour; nothing about it is proved here.
#[verifier::external_body]
fn char_from_scalar(cp: u32) -> (res: Option<char>)
    ensures
        is_scalar(cp) ==> res == Some(cp as char),
{
    char::from_u32(cp)
}

/// The characters that the well-formed UTF-8 bytes `data` encode.
pub fn decode_chars(data: &[u8]) -> (res: Vec<char>)
    requires
        valid_utf8(data@),
    ensures
        res@ == decode_utf8(data@),
{
    let n = data.len();
    let mut out: Vec<char> = Vec::new();
    let mut i: usize = 0;
    assert(tail(data@, 0) =~= data@);
    while i < n
        invariant
            n == data@.len(),
            i <= n,
            valid_utf8(tail(data@, i as int)),
            decode_utf8(data@) == out@ + decode_utf8(tail(data@, i as int)),
        decreases n - i,
    {
        let (l, cp) = unit_len_at(data, i);
        let ghost t = tail(data@, i as int);
        proof {
            lemma_unit_len_bounds(data@, i as int);
            assert(t.len() > 0);
            assert(pop_first_scalar(t) =~= tail(data@, i + unit_len(data@, i as int)));
            assert(valid_first_scalar(t));
            decode_first_scalar_is_scalar(t);
        }
        let c = match char_from_scalar(cp) {
            Some(c) => c,
            None => {
                proof {
                    assert(false);
                }
                ' '
            },
        };
        proof {
            assert(decode_utf8(t) == seq![c] + decode_utf8(pop_first_scalar(t)));
            assert(out@.push(c) + decode_utf8(tail(data@, i + l)) =~= out@ + (seq![c] + decode_utf8(tail(data@, i + l))));
        }
        out.push(c);
        i = i + l;
    }
    assert(tail(data@, n as int) =~= Seq::<u8>::empty());
    assert(out@ + Seq::<char>::empty() =~= out@);
    out
}

proof fn decode_first_scalar_is_scalar(t: Seq<u8>)
    requires
        valid_first_scalar(t),
    ensures
        is_scalar(decode_first_scalar(t)),
{
    let b = t;
    if is_leading_byte_width_1(b[0]) {
        let b0 = b[0];
        assert((b0 & 0x7f) as u32 <= 0x7f) by (bit_vector);
    } else if is_leading_byte_width_2(b[0]) {
        let b0 = b[0];
        let b1 = b[1];
        assert(((((b0 & 0x1f) as u32) << 6) | ((b1 & 0x3f) as u32)) <= 0x7ff) by (bit_vector);
    } else if is_leading_byte_width_3(b[0]) {
        let b0 = b[0];
        let b1 = b[1];
        let b2 = b[2];
        assert(((((b0 & 0x0f) as u32) << 12) | (((b1 & 0x3f) as u32) << 6) | ((b2 & 0x3f) as u32))
            <= 0xffff) by (bit_vector);
    }
}

/// Appends the UTF-8 encoding of `c` to `out`.
fn push_encoded(out: &mut Vec<u8>, c: char)
    ensures
        final(out)@ == old(out)@ + encode_scalar(c as u32),
{
    let v = c as u32;
    proof {
        char_is_scalar(c);
    }
    if v <= 0x7f {
        out.push((v & 0x7f) as u8);
    } else if v <= 0x7ff {
        out.push(0xc0 | ((v >> 6) & 0x1f) as u8);
        out.push(0x80 | (v & 0x3f) as u8);
    } else if v <= 0xffff {
        out.push(0xe0 | ((v >> 12) & 0x0f) as u8);
        out.push(0x80 | ((v >> 6) & 0x3f) as u8);
        out.push(0x80 | (v & 0x3f) as u8);
    } else {
        out.push(0xf0 | ((v >> 18) & 0x7) as u8);
        out.push(0x80 | ((v >> 12) & 0x3f) as u8);
        out.push(0x80 | ((v >> 6) & 0x3f) as u8);
        out.push(0x80 | (v & 0x3f) as u8);
    }
    assert(final(out)@ =~= old(out)@ + encode_scalar(c as u32));
}

/// Appends the UTF-8 encoding of the characters `chars` to `out`.
pub fn encode_chars(chars: &Vec<char>, out: &mut Vec<u8>)
    ensures
        final(out)@ == old(out)@ + encode_utf8(chars@),
{
    let n = chars.len();
    let mut i: usize = 0;
    assert(chars@.skip(0) =~= chars@);
    assert(old(out)@ + Seq::<u8>::empty() =~= old(out)@);
    while i < n
        invariant
            n == chars@.len(),
            i <= n,
            old(out)@ + encode_utf8(chars@) == out@ + encode_utf8(chars@.skip(i as int)),
        decreases n - i,
    {
        let ghost before = out@;
        push_encoded(out, chars[i]);
        proof {
            let rest = chars@.skip(i as int);
            assert(rest[0] == chars@[i as int]);
            assert(rest.drop_first() =~= chars@.skip(i + 1));
            assert(before + encode_utf8(rest) =~= out@ + encode_utf8(chars@.skip(i + 1)));
        }
        i = i + 1;
    }
    assert(chars@.skip(n as int) =~= Seq::<char>::empty());
    assert(out@ + Seq::<u8>::empty() =~= out@);
}

/// Encoding is piecewise: two texts together encode to their encodings one
/// after the other.
pub proof fn lemma_encode_concat(a: Seq<char>, b: Seq<char>)
    ensures
        encode_utf8(a + b) == encode_utf8(a) + encode_utf8(b),
    decreases a.len(),
{
    if a.len() == 0 {
        assert(a + b =~= b);
        assert(encode_utf8(a) + encode_utf8(b) =~= encode_utf8(b));
    } else {
        assert((a + b)[0] == a[0]);
        assert((a + b).drop_first() =~= a.drop_first() + b);
        lemma_encode_concat(a.drop_first(), b);
        assert(encode_utf8(a + b) =~= encode_utf8(a) + encode_utf8(b));
    }
}

/// A character below 0x80 encodes to the one byte of its value; any other
/// encodes to bytes that all have the high bit set.
pub proof fn lemma_encode_scalar_bytes(c: char)
    ensures
        (c as u32) <= 0x7f ==> encode_scalar(c as u32) == seq![(c as u32) as u8],
        (c as u32) > 0x7f ==> forall|k: int|
            0 <= k < encode_scalar(c as u32).len() ==> #[trigger] encode_scalar(c as u32)[k] >= 0x80,
{
    let v = c as u32;
    if v <= 0x7f {
        assert((v & 0x7f) as u8 == v as u8) by (bit_vector)
            requires
                v <= 0x7f,
        ;
        assert(encode_scalar(v) =~= seq![v as u8]);
    } else {
        assert(0xc0u8 | (((v >> 6) & 0x1f) as u8) >= 0x80) by (bit_vector);
        assert(0xe0u8 | (((v >> 12) & 0x0f) as u8) >= 0x80) by (bit_vector);
        assert(0xf0u8 | (((v >> 18) & 0x7) as u8) >= 0x80) by (bit_vector);
        assert(0x80u8 | ((v & 0x3f) as u8) >= 0x80) by (bit_vector);
        assert(0x80u8 | (((v >> 6) & 0x3f) as u8) >= 0x80) by (bit_vector);
        assert(0x80u8 | (((v >> 12) & 0x3f) as u8) >= 0x80) by (bit_vector);
    }
}

} // verus!
