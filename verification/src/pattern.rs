//! Counting occurrences of a byte pattern.

use vstd::prelude::*;
use crate::search::{find_bytes, occurs_at};

verus! {

/// Number of occurrences of `p` in `h` from `i` on, found from left to right
/// without overlap: after each occurrence the search resumes past its end.
pub open spec fn pattern_count_from(h: Seq<u8>, p: Seq<u8>, i: int) -> nat
    decreases h.len() - i,
{
    if p.len() == 0 || i < 0 || i + p.len() > h.len() {
        0
    } else if occurs_at(h, p, i) {
        1 + pattern_count_from(h, p, i + p.len())
    } else {
        pattern_count_from(h, p, i + 1)
    }
}

/// Number of non-overlapping occurrences of `p` in `h`, found from left to
/// right; 0 when `p` is empty.
pub open spec fn pattern_count(h: Seq<u8>, p: Seq<u8>) -> nat {
    pattern_count_from(h, p, 0)
}

proof fn lemma_skip(h: Seq<u8>, p: Seq<u8>, i: int, k: int)
    requires
        0 <= i <= k,
        p.len() > 0,
        forall|j: int| i <= j < k ==> !occurs_at(h, p, j),
    ensures
        pattern_count_from(h, p, i) == pattern_count_from(h, p, k),
    decreases k - i,
{
    if i < k {
        lemma_skip(h, p, i + 1, k);
    }
}

proof fn lemma_none(h: Seq<u8>, p: Seq<u8>, i: int)
    requires
        0 <= i,
        p.len() > 0,
        forall|j: int| i <= j ==> !occurs_at(h, p, j),
    ensures
        pattern_count_from(h, p, i) == 0,
    decreases h.len() - i,
{
    if i + p.len() <= h.len() {
        lemma_none(h, p, i + 1);
    }
}

proof fn lemma_occurs_shift(h: Seq<u8>, p: Seq<u8>, pos: int, j: int)
    requires
        0 <= pos <= h.len(),
        0 <= j,
    ensures
        occurs_at(h.subrange(pos, h.len() as int), p, j) == occurs_at(h, p, pos + j),
{
    let r = h.subrange(pos, h.len() as int);
    if j + p.len() <= r.len() {
        assert(r.subrange(j, j + p.len()) =~= h.subrange(pos + j, pos + j + p.len()));
    }
}

proof fn lemma_count_le(h: Seq<u8>, p: Seq<u8>, i: int)
    requires
        0 <= i,
    ensures
        pattern_count_from(h, p, i) <= if i <= h.len() { h.len() - i } else { 0 },
    decreases h.len() - i,
{
    if p.len() > 0 && i + p.len() <= h.len() {
        if occurs_at(h, p, i) {
            lemma_count_le(h, p, i + p.len());
        } else {
            lemma_count_le(h, p, i + 1);
        }
    }
}

/// Number of non-overlapping occurrences of `pattern` in `data`, found from
/// left to right; 0 when either is empty.
pub fn count_pattern(data: &[u8], pattern: &[u8]) -> (res: usize)
    ensures
        res == pattern_count(data@, pattern@),
{
    if data.len() == 0 || pattern.len() == 0 {
        return 0;
    }
    let n = data.len();
    let m = pattern.len();
    let mut count: usize = 0;
    let mut pos: usize = 0;
    proof {
        lemma_count_le(data@, pattern@, 0);
    }
    while pos < n
        invariant
            n == data@.len(),
            m == pattern@.len(),
            m > 0,
            pos <= n,
            count + pattern_count_from(data@, pattern@, pos as int) == pattern_count(data@, pattern@),
            pattern_count(data@, pattern@) <= n,
        decreases n - pos,
    {
        let rest = &data[pos..n];
        assert(rest@ =~= data@.subrange(pos as int, n as int));
        match find_bytes(rest, pattern) {
            Some(k) => {
                proof {
                    assert forall|j: int| pos <= j < pos + k implies !occurs_at(data@, pattern@, j) by {
                        lemma_occurs_shift(data@, pattern@, pos as int, j - pos);
                    }
                    lemma_skip(data@, pattern@, pos as int, pos + k);
                    lemma_occurs_shift(data@, pattern@, pos as int, k as int);
                    lemma_count_le(data@, pattern@, pos + k + m);
                }
                count = count + 1;
                pos = pos + k + m;
            },
            None => {
                proof {
                    assert forall|j: int| pos <= j implies !occurs_at(data@, pattern@, j) by {
                        lemma_occurs_shift(data@, pattern@, pos as int, j - pos);
                    }
                    lemma_none(data@, pattern@, pos as int);
                }
                pos = n;
            },
        }
    }
    proof {
        lemma_none(data@, pattern@, pos as int);
    }
    count
}

} // verus!
