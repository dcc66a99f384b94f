//! The counts: lines, characters, binary detection.

use vstd::prelude::*;
use vstd::utf8::is_continuation_byte;
use crate::parallel::map_pieces;
use crate::search::find_byte;
use crate::text::{char_count, char_count_from, lemma_char_count_concat, lemma_char_count_le, lemma_unit_len_bounds, starts_clean, tail, unit_len_at};

verus! {

/// Size of the pieces a large buffer is cut into.
pub const CHUNK_SIZE: usize = 1024 * 1024;

/// Buffers at least this long are counted piece by piece.
pub const PARALLEL_THRESHOLD: usize = 512 * 1024;

/// The line feed byte.
pub const NEWLINE: u8 = 0x0a;

/// Number of bytes sampled when looking for binary content.
pub const BINARY_SAMPLE: usize = 8192;

/// Number of positions at or after `i` in `s` that hold `b`.
pub open spec fn byte_count_from(s: Seq<u8>, b: u8, i: int) -> nat
    decreases s.len() - i,
{
    if i < 0 || i >= s.len() {
        0
    } else {
        (if s[i] == b {
            1nat
        } else {
            0nat
        }) + byte_count_from(s, b, i + 1)
    }
}

/// Number of positions in `s` that hold `b`.
pub open spec fn byte_count(s: Seq<u8>, b: u8) -> nat {
    byte_count_from(s, b, 0)
}

proof fn lemma_byte_count_skip(s: Seq<u8>, b: u8, i: int, k: int)
    requires
        0 <= i <= k <= s.len(),
        forall|j: int| i <= j < k ==> s[j] != b,
    ensures
        byte_count_from(s, b, i) == byte_count_from(s, b, k),
    decreases k - i,
{
    if i < k {
        lemma_byte_count_skip(s, b, i + 1, k);
    }
}

pub(crate) proof fn lemma_byte_count_le(s: Seq<u8>, b: u8, i: int)
    requires
        0 <= i <= s.len(),
    ensures
        byte_count_from(s, b, i) <= s.len() - i,
    decreases s.len() - i,
{
    if i < s.len() {
        lemma_byte_count_le(s, b, i + 1);
    }
}

proof fn lemma_byte_count_shift(x: Seq<u8>, y: Seq<u8>, b: u8, j: int)
    requires
        0 <= j <= y.len(),
    ensures
        byte_count_from(x + y, b, x.len() + j) == byte_count_from(y, b, j),
    decreases y.len() - j,
{
    if j < y.len() {
        assert((x + y)[x.len() + j] == y[j]);
        lemma_byte_count_shift(x, y, b, j + 1);
    }
}

proof fn lemma_byte_count_concat_from(x: Seq<u8>, y: Seq<u8>, b: u8, i: int)
    requires
        0 <= i <= x.len(),
    ensures
        byte_count_from(x + y, b, i) == byte_count_from(x, b, i) + byte_count(y, b),
    decreases x.len() - i,
{
    if i < x.len() {
        assert((x + y)[i] == x[i]);
        lemma_byte_count_concat_from(x, y, b, i + 1);
    } else {
        lemma_byte_count_shift(x, y, b, 0);
    }
}

/// Counting a byte is additive over concatenation: a buffer may be counted in
/// pieces cut anywhere.
pub proof fn lemma_byte_count_concat(x: Seq<u8>, y: Seq<u8>, b: u8)
    ensures
        byte_count(x + y, b) == byte_count(x, b) + byte_count(y, b),
{
    lemma_byte_count_concat_from(x, y, b, 0);
}

/// Cut points every `size` bytes of a buffer of `n` bytes: 0, `size`,
/// `2 * size`, ..., and `n`.
fn fixed_cuts(n: usize, size: usize) -> (res: Vec<usize>)
    requires
        size > 0,
        n + size <= usize::MAX,
    ensures
        is_cut(res@, n as int),
{
    let mut cuts: Vec<usize> = Vec::new();
    cuts.push(0);
    let mut pos = size;
    while pos < n
        invariant
            n + size <= usize::MAX,
            size > 0,
            cuts@.len() >= 1,
            cuts@[0] == 0,
            forall|i: int, j: int| 0 <= i < j < cuts@.len() ==> cuts@[i] < cuts@[j],
            cuts@[cuts@.len() - 1] < pos,
            cuts@[cuts@.len() - 1] < n || (cuts@.len() == 1 && n == 0),
            pos <= n + size,
        decreases n + size - pos,
    {
        cuts.push(pos);
        pos = pos + size;
    }
    if cuts[cuts.len() - 1] != n {
        cuts.push(n);
    }
    cuts
}

/// Number of newline bytes in `data`, as `wc -l` reports; a large buffer is
/// counted a fixed-size piece at a time, the pieces in parallel.
pub fn count_lines(data: &[u8]) -> (res: usize)
    ensures
        res == byte_count(data@, NEWLINE),
{
    if data.len() < PARALLEL_THRESHOLD || data.len() > usize::MAX - CHUNK_SIZE {
        return count_lines_sequential(data);
    }
    let bounds = fixed_cuts(data.len(), CHUNK_SIZE);
    let piece_lines = |lo: usize, hi: usize| -> (c: usize)
        requires
            lo <= hi <= data@.len(),
        ensures
            c == byte_count(data@.subrange(lo as int, hi as int), NEWLINE),
        {
            let piece = &data[lo..hi];
            assert(piece@ =~= data@.subrange(lo as int, hi as int));
            count_lines_sequential(piece)
        };
    let counts = map_pieces(&bounds, piece_lines);
    let m = bounds.len();
    let mut total: usize = 0;
    let mut j: usize = 0;
    assert(data@.subrange(0, 0) =~= Seq::<u8>::empty());
    while j + 1 < m
        invariant
            m == bounds@.len(),
            counts@.len() == m - 1,
            is_cut(bounds@, data@.len() as int),
            forall|k: int| 0 <= k < m - 1 ==> #[trigger] counts@[k] == byte_count(data@.subrange(bounds@[k] as int, bounds@[k + 1] as int), NEWLINE),
            j < m,
            total == byte_count(data@.subrange(0, bounds@[j as int] as int), NEWLINE),
        decreases m - j,
    {
        let lo = bounds[j];
        let hi = bounds[j + 1];
        let c = counts[j];
        assert(lo < hi);
        assert(hi <= data@.len()) by {
            if j + 1 < m - 1 {
                assert(bounds@[j + 1] < bounds@[m - 1]);
            }
        }
        proof {
            let a = data@.subrange(0, lo as int);
            let b = data@.subrange(lo as int, hi as int);
            assert(a + b =~= data@.subrange(0, hi as int));
            lemma_byte_count_concat(a, b, NEWLINE);
            lemma_byte_count_le(data@.subrange(0, hi as int), NEWLINE, 0);
        }
        total = total + c;
        j = j + 1;
    }
    assert(data@.subrange(0, data@.len() as int) =~= data@);
    total
}

/// Number of newline bytes in `data`, found in one pass.
fn count_lines_sequential(data: &[u8]) -> (res: usize)
    ensures
        res == byte_count(data@, NEWLINE),
{
    let n = data.len();
    let mut count: usize = 0;
    let mut pos: usize = 0;
    proof {
        lemma_byte_count_le(data@, NEWLINE, 0);
    }
    while pos < n
        invariant
            n == data@.len(),
            pos <= n,
            count + byte_count_from(data@, NEWLINE, pos as int) == byte_count(data@, NEWLINE),
            byte_count(data@, NEWLINE) <= n,
        decreases n - pos,
    {
        let rest = &data[pos..n];
        match find_byte(NEWLINE, rest) {
            Some(k) => {
                proof {
                    assert forall|j: int| pos <= j < pos + k implies data@[j] != NEWLINE by {
                        assert(rest@[j - pos] == data@[j]);
                    }
                    assert(rest@[k as int] == data@[pos + k]);
                    lemma_byte_count_skip(data@, NEWLINE, pos as int, pos + k);
                    lemma_byte_count_le(data@, NEWLINE, pos + k + 1);
                }
                count = count + 1;
                pos = pos + k + 1;
            },
            None => {
                proof {
                    assert forall|j: int| pos <= j < n implies data@[j] != NEWLINE by {
                        assert(rest@[j - pos] == data@[j]);
                    }
                    lemma_byte_count_skip(data@, NEWLINE, pos as int, n as int);
                }
                pos = n;
            },
        }
    }
    count
}

/// Whether `s` looks binary: a zero byte within its first `BINARY_SAMPLE`
/// bytes.
pub open spec fn looks_binary(s: Seq<u8>) -> bool {
    exists|k: int| 0 <= k < s.len() && k < BINARY_SAMPLE && s[k] == 0
}

/// Whether `data` looks binary: a zero byte within its first
/// `BINARY_SAMPLE` bytes.
pub fn is_binary(data: &[u8]) -> (res: bool)
    ensures
        res == looks_binary(data@),
{
    let sample_size = if data.len() < BINARY_SAMPLE {
        data.len()
    } else {
        BINARY_SAMPLE
    };
    let sample = &data[0..sample_size];
    match find_byte(0, sample) {
        Some(k) => {
            assert(sample@[k as int] == data@[k as int]);
            true
        },
        None => {
            assert forall|k: int| 0 <= k < data@.len() && k < BINARY_SAMPLE implies data@[k] != 0 by {
                assert(sample@[k] == data@[k]);
            }
            false
        },
    }
}

/// The first position at or after `pos` that does not continue a character
/// (or the end of `data`): a cut there keeps every character whole.
pub fn find_utf8_boundary(data: &[u8], pos: usize) -> (res: usize)
    ensures
        pos >= data@.len() ==> res == data@.len(),
        pos < data@.len() ==> {
            &&& pos <= res <= data@.len()
            &&& forall|k: int| pos <= k < res ==> is_continuation_byte(#[trigger] data@[k])
            &&& res < data@.len() ==> !is_continuation_byte(data@[res as int])
        },
{
    if pos >= data.len() {
        return data.len();
    }
    let mut p = pos;
    while p < data.len() && 0x80 <= data[p] && data[p] <= 0xbf
        invariant
            pos <= p <= data@.len(),
            forall|k: int| pos <= k < p ==> is_continuation_byte(#[trigger] data@[k]),
        decreases data@.len() - p,
    {
        p = p + 1;
    }
    p
}

/// Whether `b` cuts `data` into pieces: it starts at 0, ends at the length of
/// `data` and increases strictly.
pub open spec fn is_cut(b: Seq<usize>, len: int) -> bool {
    &&& b.len() >= 1
    &&& b[0] == 0
    &&& b[b.len() - 1] == len
    &&& forall|i: int, j: int| 0 <= i < j < b.len() ==> b[i] < b[j]
}

/// Cut points of `data` for piecewise counting: roughly every `chunk_size`
/// bytes, moved forward so that no character is split. Every piece but the
/// last spans at least `chunk_size` bytes.
pub fn find_utf8_chunk_boundaries(data: &[u8], chunk_size: usize) -> (res: Vec<usize>)
    requires
        chunk_size > 0,
        data@.len() + chunk_size <= usize::MAX,
    ensures
        is_cut(res@, data@.len() as int),
        forall|k: int| 0 < k < res@.len() - 1 ==> starts_clean(#[trigger] tail(data@, res@[k] as int)),
        forall|k: int| 0 < k < res@.len() - 1 ==> res@[k - 1] + chunk_size <= #[trigger] res@[k],
{
    let n = data.len();
    let mut boundaries: Vec<usize> = Vec::new();
    boundaries.push(0);
    let mut pos = chunk_size;
    while pos < n
        invariant
            n == data@.len(),
            n + chunk_size <= usize::MAX,
            chunk_size > 0,
            boundaries@.len() >= 1,
            boundaries@[0] == 0,
            forall|i: int, j: int| 0 <= i < j < boundaries@.len() ==> boundaries@[i] < boundaries@[j],
            forall|k: int| 0 < k < boundaries@.len() ==> boundaries@[k] <= n,
            forall|k: int| 0 < k < boundaries@.len() && boundaries@[k] < n ==> starts_clean(#[trigger] tail(data@, boundaries@[k] as int)),
            boundaries@[boundaries@.len() - 1] < pos,
            pos == boundaries@[boundaries@.len() - 1] + chunk_size,
            forall|k: int| 0 < k < boundaries@.len() ==> boundaries@[k - 1] + chunk_size <= #[trigger] boundaries@[k],
            pos <= n + chunk_size,
        decreases n + chunk_size - pos,
    {
        let p = find_utf8_boundary(data, pos);
        proof {
            if p < n {
                assert(tail(data@, p as int)[0] == data@[p as int]);
            }
        }
        boundaries.push(p);
        pos = p + chunk_size;
    }
    if boundaries[boundaries.len() - 1] != n {
        boundaries.push(n);
    }
    proof {
        assert forall|k: int| 0 < k < boundaries@.len() - 1 implies starts_clean(#[trigger] tail(data@, boundaries@[k] as int)) by {
            assert(boundaries@[k] < boundaries@[boundaries@.len() - 1]);
        }
    }
    boundaries
}

/// Counts the characters of each piece of `data` cut at `bounds`, the pieces
/// in parallel, and adds them up.
fn count_chars_in_pieces(data: &[u8], bounds: &Vec<usize>) -> (res: usize)
    requires
        is_cut(bounds@, data@.len() as int),
        forall|k: int| 0 < k < bounds@.len() - 1 ==> starts_clean(#[trigger] tail(data@, bounds@[k] as int)),
    ensures
        res == char_count(data@),
{
    let m = bounds.len();
    let piece_chars = |lo: usize, hi: usize| -> (c: usize)
        requires
            lo <= hi <= data@.len(),
        ensures
            c == char_count(data@.subrange(lo as int, hi as int)),
        { count_chars_sequential(&data[lo..hi]) };
    let counts = map_pieces(bounds, piece_chars);
    let mut total: usize = 0;
    let mut j: usize = 0;
    assert(data@.subrange(0, 0) =~= Seq::<u8>::empty());
    while j + 1 < m
        invariant
            m == bounds@.len(),
            counts@.len() == m - 1,
            is_cut(bounds@, data@.len() as int),
            forall|k: int| 0 < k < bounds@.len() - 1 ==> starts_clean(#[trigger] tail(data@, bounds@[k] as int)),
            forall|k: int| 0 <= k < m - 1 ==> #[trigger] counts@[k] == char_count(data@.subrange(bounds@[k] as int, bounds@[k + 1] as int)),
            j < m,
            total == char_count(data@.subrange(0, bounds@[j as int] as int)),
        decreases m - j,
    {
        let lo = bounds[j];
        let hi = bounds[j + 1];
        let c = counts[j];
        assert(lo < hi);
        assert(hi <= data@.len()) by {
            if j + 1 < m - 1 {
                assert(bounds@[j + 1] < bounds@[m - 1]);
            }
        }
        proof {
            let a = data@.subrange(0, lo as int);
            let b = data@.subrange(lo as int, hi as int);
            assert(a + b =~= data@.subrange(0, hi as int));
            if j > 0 {
                assert(starts_clean(tail(data@, lo as int)));
                assert(b[0] == tail(data@, lo as int)[0]);
                lemma_char_count_concat(a, b);
            } else {
                assert(a =~= Seq::<u8>::empty());
                assert(a + b =~= b);
            }
            lemma_char_count_le(data@.subrange(0, hi as int));
        }
        total = total + c;
        j = j + 1;
    }
    assert(data@.subrange(0, data@.len() as int) =~= data@);
    total
}

/// Walks `data` once and counts its characters.
fn count_chars_sequential(data: &[u8]) -> (res: usize)
    ensures
        res == char_count(data@),
{
    let n = data.len();
    let mut count: usize = 0;
    let mut i: usize = 0;
    while i < n
        invariant
            n == data@.len(),
            i <= n,
            count <= i,
            count + char_count_from(data@, i as int) == char_count(data@),
        decreases n - i,
    {
        let (l, _) = unit_len_at(data, i);
        proof {
            lemma_unit_len_bounds(data@, i as int);
        }
        if l > 0 {
            count = count + 1;
            i = i + l;
        } else {
            i = i + 1;
        }
    }
    count
}

/// Number of characters in `data` as `wc -m` counts them in a UTF-8 locale:
/// one per well-formed UTF-8 sequence, nothing for a byte that is not part of
/// one.
pub fn count_chars(data: &[u8]) -> (res: usize)
    ensures
        res == char_count(data@),
{
    if data.len() == 0 {
        return 0;
    }
    if data.len() < PARALLEL_THRESHOLD || data.len() > usize::MAX - CHUNK_SIZE {
        return count_chars_sequential(data);
    }
    let bounds = find_utf8_chunk_boundaries(data, CHUNK_SIZE);
    count_chars_in_pieces(data, &bounds)
}

} // verus!
