//! Laying out counts in a line of output, as `wc` does.

use vstd::prelude::*;
use vstd::utf8::encode_utf8;
use crate::config::Args;
use crate::report::{selected_values, Counts};

verus! {

/// The decimal digits of `v`, in ASCII.
pub open spec fn decimal(v: nat) -> Seq<u8>
    decreases v,
{
    if v < 10 {
        seq![(48 + v) as u8]
    } else {
        decimal(v / 10).push((48 + v % 10) as u8)
    }
}

/// `n` spaces.
pub open spec fn spaces(n: int) -> Seq<u8> {
    Seq::new(n as nat, |i: int| 0x20u8)
}

/// `v` in decimal, right-aligned with spaces to `w` columns.
pub open spec fn right_aligned(v: nat, w: int) -> Seq<u8> {
    let d = decimal(v);
    if d.len() < w {
        spaces(w - d.len()) + d
    } else {
        d
    }
}

/// The width given for field `i`: `widths[i]`, or 1 past the end of `widths`.
pub open spec fn width_at(widths: Seq<usize>, i: int) -> int {
    if 0 <= i < widths.len() {
        widths[i] as int
    } else {
        1
    }
}

/// The first `k` values, each right-aligned to its width, separated by single
/// spaces.
pub open spec fn joined(values: Seq<usize>, widths: Seq<usize>, k: int) -> Seq<u8>
    decreases k,
{
    if k <= 0 {
        Seq::empty()
    } else if k == 1 {
        right_aligned(values[0] as nat, width_at(widths, 0))
    } else {
        joined(values, widths, k - 1) + seq![0x20u8] + right_aligned(
            values[k - 1] as nat,
            width_at(widths, k - 1),
        )
    }
}

/// A line of output: the values right-aligned and separated by spaces, then
/// the name after a space when there is one.
pub open spec fn formatted_line(values: Seq<usize>, widths: Seq<usize>, name: Seq<u8>) -> Seq<u8> {
    let j = joined(values, widths, values.len() as int);
    if name.len() == 0 {
        j
    } else {
        j + seq![0x20u8] + name
    }
}

/// Appends the decimal digits of `v` to `out`.
fn push_decimal(v: usize, out: &mut Vec<u8>)
    ensures
        final(out)@ == old(out)@ + decimal(v as nat),
    decreases v,
{
    if v < 10 {
        out.push((48 + v) as u8);
        assert(final(out)@ =~= old(out)@ + decimal(v as nat));
    } else {
        push_decimal(v / 10, out);
        out.push((48 + v % 10) as u8);
        assert(final(out)@ =~= old(out)@ + decimal(v as nat));
    }
}

/// Number of decimal digits of `v`.
pub fn decimal_width(v: usize) -> (res: usize)
    ensures
        res == decimal(v as nat).len(),
        res >= 1,
{
    let mut digits: Vec<u8> = Vec::new();
    push_decimal(v, &mut digits);
    assert(digits@ =~= decimal(v as nat));
    proof {
        lemma_decimal_len(v as nat);
    }
    digits.len()
}

proof fn lemma_decimal_len(v: nat)
    ensures
        decimal(v).len() >= 1,
    decreases v,
{
    if v >= 10 {
        lemma_decimal_len(v / 10);
    }
}

/// The width each value takes in decimal (at least 1).
pub fn value_widths(values: &Vec<usize>) -> (res: Vec<usize>)
    ensures
        res@.len() == values@.len(),
        forall|i: int| 0 <= i < values@.len() ==> res@[i] == decimal(#[trigger] values@[i] as nat).len(),
{
    let mut res: Vec<usize> = Vec::new();
    let mut i: usize = 0;
    while i < values.len()
        invariant
            i <= values@.len(),
            res@.len() == i,
            forall|j: int| 0 <= j < i ==> res@[j] == decimal(#[trigger] values@[j] as nat).len(),
        decreases values@.len() - i,
    {
        res.push(decimal_width(values[i]));
        i = i + 1;
    }
    res
}

/// Appends `v` right-aligned to `w` columns.
fn push_right_aligned(v: usize, w: usize, out: &mut Vec<u8>)
    ensures
        final(out)@ == old(out)@ + right_aligned(v as nat, w as int),
{
    let d = decimal_width(v);
    let mut k = d;
    while k < w
        invariant
            d <= k <= w || (w < d && k == d),
            d == decimal(v as nat).len(),
            out@ == old(out)@ + spaces(k - d),
        decreases w - k,
    {
        out.push(0x20);
        assert(old(out)@ + spaces(k + 1 - d) =~= out@);
        k = k + 1;
    }
    let ghost mid = out@;
    push_decimal(v, out);
    if d < w {
        assert(out@ =~= old(out)@ + (spaces(w - d) + decimal(v as nat)));
    } else {
        assert(spaces(k - d) =~= Seq::<u8>::empty());
        assert(out@ =~= old(out)@ + decimal(v as nat));
    }
}

/// The output line of `values` with their `widths`, and `name` after them
/// when it is not empty.
pub fn format_values(values: &Vec<usize>, widths: &Vec<usize>, name: &str) -> (res: Vec<u8>)
    ensures
        res@ == formatted_line(values@, widths@, encode_utf8(name@)),
{
    let mut out: Vec<u8> = Vec::new();
    let mut i: usize = 0;
    while i < values.len()
        invariant
            i <= values@.len(),
            out@ == joined(values@, widths@, i as int),
        decreases values@.len() - i,
    {
        let w: usize = if i < widths.len() {
            widths[i]
        } else {
            1
        };
        if i > 0 {
            out.push(0x20);
        }
        let ghost before = out@;
        push_right_aligned(values[i], w, &mut out);
        proof {
            if i == 0 {
                assert(out@ =~= joined(values@, widths@, 1));
            } else {
                assert(out@ =~= joined(values@, widths@, i + 1));
            }
        }
        i = i + 1;
    }
    let bytes = name.as_bytes();
    if bytes.len() > 0 {
        out.push(0x20);
        let mut k: usize = 0;
        let ghost before = out@;
        while k < bytes.len()
            invariant
                k <= bytes@.len(),
                out@ == before + bytes@.subrange(0, k as int),
            decreases bytes@.len() - k,
        {
            out.push(bytes[k]);
            assert(before + bytes@.subrange(0, k + 1) =~= out@);
            k = k + 1;
        }
        assert(bytes@.subrange(0, bytes@.len() as int) =~= bytes@);
    }
    out
}

impl Counts {
    /// The output line of the counts that `args` selects, right-aligned to
    /// `widths`, followed by `name` when it is not empty.
    pub fn format(&self, args: &Args, name: &str, widths: &Vec<usize>) -> (res: Vec<u8>)
        ensures
            res@ == formatted_line(selected_values(self, args), widths@, encode_utf8(name@)),
    {
        let values = self.get_values(args);
        format_values(&values, widths, name)
    }
}

} // verus!
