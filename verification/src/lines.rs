//! The line model: how a buffer splits into lines, and where it may be cut
//! so that every piece holds whole lines.

use vstd::prelude::*;
use crate::count::{is_cut, NEWLINE};
use crate::search::find_byte;

verus! {

/// The carriage return byte.
pub const CARRIAGE_RETURN: u8 = 0x0d;

/// Index of the first newline at or after `i` in `s`, or the length of `s`
/// when there is none.
pub open spec fn next_newline(s: Seq<u8>, i: int) -> int
    decreases s.len() - i,
{
    if i < 0 || i >= s.len() {
        s.len() as int
    } else if s[i] == NEWLINE {
        i
    } else {
        next_newline(s, i + 1)
    }
}

/// The next newline lies between `i` and the end, and none comes before it.
pub proof fn lemma_next_newline(s: Seq<u8>, i: int)
    requires
        0 <= i <= s.len(),
    ensures
        i <= next_newline(s, i) <= s.len(),
        next_newline(s, i) < s.len() ==> s[next_newline(s, i)] == NEWLINE,
        forall|k: int| i <= k < next_newline(s, i) ==> s[k] != NEWLINE,
    decreases s.len() - i,
{
    if i < s.len() && s[i] != NEWLINE {
        lemma_next_newline(s, i + 1);
    }
}

/// The lines of `s` from position `i` on: the pieces between newline bytes,
/// newlines excluded. A last piece that no newline ends is a line only when
/// it is not empty.
pub open spec fn lines_from(s: Seq<u8>, i: int) -> Seq<Seq<u8>>
    decreases s.len() - i,
{
    if i < 0 || i >= s.len() {
        Seq::empty()
    } else {
        proof {
            lemma_next_newline(s, i);
        }
        if next_newline(s, i) < s.len() {
            seq![s.subrange(i, next_newline(s, i))] + lines_from(s, next_newline(s, i) + 1)
        } else {
            seq![s.subrange(i, s.len() as int)]
        }
    }
}

/// The lines of `s`.
pub open spec fn lines(s: Seq<u8>) -> Seq<Seq<u8>> {
    lines_from(s, 0)
}

/// What a line holds once a carriage return that ends it is dropped.
pub open spec fn line_content(line: Seq<u8>) -> Seq<u8> {
    if line.len() > 0 && line.last() == CARRIAGE_RETURN {
        line.drop_last()
    } else {
        line
    }
}

/// Whether a cut of `s` before index `k` falls at the start of a line.
pub open spec fn at_line_start(s: Seq<u8>, k: int) -> bool {
    k == 0 || (0 < k <= s.len() && s[k - 1] == NEWLINE)
}

proof fn lemma_next_newline_concat(a: Seq<u8>, b: Seq<u8>, i: int)
    requires
        0 <= i < a.len(),
        a.last() == NEWLINE,
    ensures
        next_newline(a + b, i) == next_newline(a, i),
    decreases a.len() - i,
{
    assert((a + b)[i] == a[i]);
    if a[i] != NEWLINE {
        lemma_next_newline_concat(a, b, i + 1);
    }
}

proof fn lemma_next_newline_shift(a: Seq<u8>, b: Seq<u8>, j: int)
    requires
        0 <= j <= b.len(),
    ensures
        next_newline(a + b, a.len() + j) == a.len() + next_newline(b, j),
    decreases b.len() - j,
{
    if j < b.len() {
        assert((a + b)[a.len() + j] == b[j]);
        lemma_next_newline_shift(a, b, j + 1);
    }
}

proof fn lemma_lines_shift(a: Seq<u8>, b: Seq<u8>, j: int)
    requires
        0 <= j <= b.len(),
    ensures
        lines_from(a + b, a.len() + j) == lines_from(b, j),
    decreases b.len() - j,
{
    if j < b.len() {
        lemma_next_newline_shift(a, b, j);
        lemma_next_newline(b, j);
        let e = next_newline(b, j);
        assert((a + b).subrange(a.len() + j, a.len() + e) =~= b.subrange(j, e));
        if e < b.len() {
            lemma_lines_shift(a, b, e + 1);
        }
    }
}

proof fn lemma_lines_concat_from(a: Seq<u8>, b: Seq<u8>, i: int)
    requires
        0 <= i <= a.len(),
        a.len() > 0 ==> a.last() == NEWLINE,
    ensures
        lines_from(a + b, i) == lines_from(a, i) + lines(b),
    decreases a.len() - i,
{
    if i == a.len() {
        lemma_lines_shift(a, b, 0);
        assert(lines_from(a, i) =~= Seq::<Seq<u8>>::empty());
        assert(lines_from(a + b, i) =~= lines_from(a, i) + lines(b));
    } else {
        lemma_next_newline_concat(a, b, i);
        lemma_next_newline(a, i);
        let e = next_newline(a, i);
        assert(e < a.len()) by {
            if e == a.len() {
                assert(a[a.len() - 1] != NEWLINE);
            }
        }
        assert((a + b).subrange(i, e) =~= a.subrange(i, e));
        lemma_lines_concat_from(a, b, e + 1);
        assert(lines_from(a + b, i) =~= lines_from(a, i) + lines(b));
    }
}

/// Lines split piecewise: when the first part is empty or ends with a newline,
/// the lines of the whole are the lines of the first part followed by those of
/// the second.
pub proof fn lemma_lines_concat(a: Seq<u8>, b: Seq<u8>)
    requires
        a.len() > 0 ==> a.last() == NEWLINE,
    ensures
        lines(a + b) == lines(a) + lines(b),
{
    lemma_lines_concat_from(a, b, 0);
}

/// The lines of a prefix of `s` that ends at a line start, with one more line:
/// taking the prefix up to the next line start adds the line between.
pub proof fn lemma_lines_step(s: Seq<u8>, i: int)
    requires
        0 <= i < s.len(),
        at_line_start(s, i),
    ensures
        next_newline(s, i) < s.len() ==> lines(s.subrange(0, next_newline(s, i) + 1))
            == lines(s.subrange(0, i)).push(s.subrange(i, next_newline(s, i))),
        next_newline(s, i) == s.len() ==> lines(s) == lines(s.subrange(0, i)).push(
            s.subrange(i, s.len() as int),
        ),
{
    lemma_next_newline(s, i);
    let e = next_newline(s, i);
    let a = s.subrange(0, i);
    let end = if e < s.len() {
        e + 1
    } else {
        s.len() as int
    };
    let b = s.subrange(i, end);
    assert(a + b =~= s.subrange(0, end));
    if i > 0 {
        assert(a.last() == s[i - 1]);
    }
    lemma_lines_concat(a, b);
    lemma_next_newline(b, 0);
    assert forall|k: int| 0 <= k < e - i implies b[k] != NEWLINE by {
        assert(b[k] == s[i + k]);
    }
    if e < s.len() {
        assert(b[e - i] == s[e]);
        assert(next_newline(b, 0) == e - i) by {
            if next_newline(b, 0) < e - i {
                assert(b[next_newline(b, 0)] == NEWLINE);
            }
        }
        assert(b.subrange(0, e - i) =~= s.subrange(i, e));
        assert(lines_from(b, e - i + 1) =~= Seq::<Seq<u8>>::empty());
        assert(lines(b) =~= seq![b.subrange(0, e - i)] + lines_from(b, e - i + 1));
        assert(lines(b) =~= seq![s.subrange(i, e)]);
    } else {
        assert(next_newline(b, 0) == b.len()) by {
            if next_newline(b, 0) < b.len() {
                assert(b[next_newline(b, 0)] == NEWLINE);
            }
        }
        assert(b.subrange(0, b.len() as int) =~= s.subrange(i, s.len() as int));
        assert(lines(b) =~= seq![s.subrange(i, s.len() as int)]);
        assert(s.subrange(0, end) =~= s);
    }
    assert(lines(a) + lines(b) =~= lines(a).push(b.subrange(0, e - i)));
}

/// End of the line that starts at `pos`: the index of the next newline, or
/// the length of `data`.
pub fn next_line_end(data: &[u8], pos: usize) -> (res: usize)
    requires
        pos < data@.len(),
    ensures
        res == next_newline(data@, pos as int),
{
    let n = data.len();
    let rest = &data[pos..n];
    proof {
        lemma_next_newline(data@, pos as int);
    }
    match find_byte(NEWLINE, rest) {
        Some(k) => {
            proof {
                assert(rest@[k as int] == data@[pos + k]);
                let e = next_newline(data@, pos as int);
                if e < pos + k {
                    assert(rest@[e - pos] == data@[e]);
                }
                if e > pos + k {
                    assert(data@[pos + k] != NEWLINE);
                }
            }
            pos + k
        },
        None => {
            proof {
                let e = next_newline(data@, pos as int);
                if e < n {
                    assert(rest@[e - pos] == data@[e]);
                }
            }
            n
        },
    }
}

/// Cut points of `data` for piecewise counting: roughly every `chunk_size`
/// bytes, moved forward past the next newline so that every piece holds whole
/// lines. Every piece but the last spans at least `chunk_size` bytes.
pub fn find_line_boundaries(data: &[u8], chunk_size: usize) -> (res: Vec<usize>)
    requires
        chunk_size > 0,
        data@.len() + chunk_size <= usize::MAX,
    ensures
        is_cut(res@, data@.len() as int),
        forall|k: int| 0 <= k < res@.len() - 1 ==> at_line_start(data@, #[trigger] res@[k] as int),
        forall|k: int| 0 < k < res@.len() - 1 ==> res@[k - 1] + chunk_size <= #[trigger] res@[k],
{
    let n = data.len();
    let mut boundaries: Vec<usize> = Vec::new();
    boundaries.push(0);
    let mut pos = chunk_size;
    while pos < n
        invariant
            n == data@.len(),
            n + chunk_size <= usize::MAX,
            chunk_size > 0,
            boundaries@.len() >= 1,
            boundaries@[0] == 0,
            forall|i: int, j: int| 0 <= i < j < boundaries@.len() ==> boundaries@[i] < boundaries@[j],
            forall|k: int| 0 <= k < boundaries@.len() ==> boundaries@[k] <= n,
            forall|k: int| 0 <= k < boundaries@.len() && boundaries@[k] < n ==> at_line_start(data@, #[trigger] boundaries@[k] as int),
            boundaries@[boundaries@.len() - 1] < pos,
            pos == boundaries@[boundaries@.len() - 1] + chunk_size,
            forall|k: int| 0 < k < boundaries@.len() ==> boundaries@[k - 1] + chunk_size <= #[trigger] boundaries@[k],
            pos <= n + chunk_size,
        decreases n + chunk_size - pos,
    {
        let e = next_line_end(data, pos);
        proof {
            lemma_next_newline(data@, pos as int);
        }
        let p = if e < n {
            e + 1
        } else {
            n
        };
        boundaries.push(p);
        pos = p + chunk_size;
    }
    if boundaries[boundaries.len() - 1] != n {
        boundaries.push(n);
    }
    proof {
        assert forall|k: int| 0 <= k < boundaries@.len() - 1 implies at_line_start(data@, #[trigger] boundaries@[k] as int) by {
            assert(boundaries@[k] < boundaries@[boundaries@.len() - 1]);
        }
    }
    boundaries
}

} // verus!
