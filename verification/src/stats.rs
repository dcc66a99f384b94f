//! Line lengths, their statistics and their histogram.

use vstd::prelude::*;
use std::collections::HashMap;
use crate::count::{is_cut, CHUNK_SIZE, PARALLEL_THRESHOLD};
use crate::parallel::map_pieces;
use crate::linecount::lemma_prefix_lines;
use crate::lines::{at_line_start, find_line_boundaries, line_content, lines, lines_from, next_line_end, next_newline};
use crate::order::{ascending, kth_smallest, lemma_sorted_kth, median};

verus! {

broadcast use vstd::std_specs::hash::group_hash_axioms;

/// Length in bytes of a line's content.
pub open spec fn content_len(line: Seq<u8>) -> int {
    line_content(line).len() as int
}

/// The bucket of the line length histogram that a line falls in: its length
/// rounded down to a multiple of 10.
pub open spec fn bucket(line: Seq<u8>) -> int {
    (content_len(line) / 10) * 10
}

/// Number of lines of `ls` that fall in bucket `b`.
pub open spec fn bucket_count(ls: Seq<Seq<u8>>, b: int) -> nat {
    ls.filter(|l: Seq<u8>| bucket(l) == b).len()
}

/// Whether `m` maps each bucket that some line of `ls` falls in to the number
/// of those lines, and holds no other bucket.
pub open spec fn tallies(m: Map<usize, usize>, ls: Seq<Seq<u8>>) -> bool {
    forall|b: usize|
        #![trigger m.contains_key(b)]
        #![trigger m[b]]
        (m.contains_key(b) <==> bucket_count(ls, b as int) > 0) && (m.contains_key(b) ==> m[b]
            == bucket_count(ls, b as int))
}

/// Whether `v` lists the content lengths of the lines `ls`, in order.
pub open spec fn lists_lengths(v: Seq<usize>, ls: Seq<Seq<u8>>) -> bool {
    &&& v.len() == ls.len()
    &&& forall|k: int| 0 <= k < v.len() ==> v[k] == content_len(#[trigger] ls[k])
}

proof fn lemma_lines_prefix_len(s: Seq<u8>, pos: int)
    requires
        0 <= pos <= s.len(),
    ensures
        lines(s.subrange(0, pos)).len() <= pos,
{
    crate::linecount::lemma_lines_len_le(s.subrange(0, pos));
}

/// Walks the lines of `data` and appends their content lengths to `out`.
fn collect_line_lengths_chunk(data: &[u8], out: &mut Vec<usize>, Ghost(prev): Ghost<Seq<Seq<u8>>>)
    requires
        lists_lengths(old(out)@, prev),
    ensures
        lists_lengths(final(out)@, prev + lines(data@)),
{
    let n = data.len();
    let mut pos: usize = 0;
    assert(lines(data@.subrange(0, 0)) =~= Seq::<Seq<u8>>::empty());
    assert(prev + lines(data@.subrange(0, 0)) =~= prev);
    while pos < n
        invariant
            n == data@.len(),
            pos <= n,
            pos < n ==> at_line_start(data@, pos as int),
            lists_lengths(out@, prev + lines(data@.subrange(0, pos as int))),
        decreases n - pos,
    {
        let e = next_line_end(data, pos);
        proof {
            crate::linecount::lemma_walk_step(data@, pos as int);
        }
        let end = crate::linecount::content_end(data, pos, e);
        proof {
            let old_ls = prev + lines(data@.subrange(0, pos as int));
            let line = data@.subrange(pos as int, e as int);
            assert(prev + lines(data@.subrange(0, pos as int)).push(line) =~= old_ls.push(line));
        }
        out.push(end - pos);
        pos = if e < n {
            e + 1
        } else {
            n
        };
    }
    assert(data@.subrange(0, n as int) =~= data@);
}

/// Appends the values of `v` to `out`.
fn append_values(out: &mut Vec<usize>, v: &Vec<usize>)
    ensures
        final(out)@ == old(out)@ + v@,
{
    let mut i: usize = 0;
    while i < v.len()
        invariant
            i <= v@.len(),
            out@ == old(out)@ + v@.subrange(0, i as int),
        decreases v@.len() - i,
    {
        out.push(v[i]);
        assert(old(out)@ + v@.subrange(0, i + 1) =~= out@);
        i = i + 1;
    }
    assert(v@.subrange(0, v@.len() as int) =~= v@);
}

proof fn lemma_lists_lengths_concat(v: Seq<usize>, ls: Seq<Seq<u8>>, w: Seq<usize>, ms: Seq<Seq<u8>>)
    requires
        lists_lengths(v, ls),
        lists_lengths(w, ms),
    ensures
        lists_lengths(v + w, ls + ms),
{
    assert forall|k: int| 0 <= k < (v + w).len() implies (v + w)[k] == content_len(#[trigger] (ls + ms)[k]) by {
        if k >= v.len() {
            assert((v + w)[k] == w[k - v.len()]);
            assert((ls + ms)[k] == ms[k - v.len()]);
        } else {
            assert((ls + ms)[k] == ls[k]);
        }
    }
}

/// Content length of every line of `data`, in order; a carriage return that
/// ends a line is not counted. A large buffer is walked a piece of whole lines
/// at a time, the pieces in parallel.
pub fn line_lengths(data: &[u8]) -> (res: Vec<usize>)
    ensures
        lists_lengths(res@, lines(data@)),
{
    let mut out: Vec<usize> = Vec::new();
    assert(Seq::<Seq<u8>>::empty() + lines(data@) =~= lines(data@));
    if data.len() < PARALLEL_THRESHOLD || data.len() > usize::MAX - CHUNK_SIZE {
        collect_line_lengths_chunk(data, &mut out, Ghost(Seq::empty()));
        return out;
    }
    let bounds = find_line_boundaries(data, CHUNK_SIZE);
    let piece_lengths = |lo: usize, hi: usize| -> (r: Vec<usize>)
        requires
            lo <= hi <= data@.len(),
        ensures
            lists_lengths(r@, lines(data@.subrange(lo as int, hi as int))),
        {
            let piece = &data[lo..hi];
            let mut v: Vec<usize> = Vec::new();
            collect_line_lengths_chunk(piece, &mut v, Ghost(Seq::empty()));
            assert(piece@ =~= data@.subrange(lo as int, hi as int));
            assert(Seq::<Seq<u8>>::empty() + lines(piece@) =~= lines(piece@));
            v
        };
    let parts = map_pieces(&bounds, piece_lengths);
    let mut j: usize = 0;
    let m = bounds.len();
    assert(lines(data@.subrange(0, 0)) =~= Seq::<Seq<u8>>::empty());
    while j + 1 < m
        invariant
            m == bounds@.len(),
            parts@.len() == m - 1,
            is_cut(bounds@, data@.len() as int),
            forall|k: int| 0 <= k < bounds@.len() - 1 ==> at_line_start(data@, #[trigger] bounds@[k] as int),
            forall|k: int| 0 <= k < m - 1 ==> lists_lengths(#[trigger] parts@[k]@, lines(data@.subrange(bounds@[k] as int, bounds@[k + 1] as int))),
            j < m,
            lists_lengths(out@, lines(data@.subrange(0, bounds@[j as int] as int))),
        decreases m - j,
    {
        let lo = bounds[j];
        let hi = bounds[j + 1];
        assert(lo < hi);
        assert(hi <= data@.len()) by {
            if j + 1 < m - 1 {
                assert(bounds@[j + 1] < bounds@[m - 1]);
            }
        }
        let part = &parts[j];
        proof {
            assert(at_line_start(data@, lo as int));
            lemma_prefix_lines(data@, lo as int, hi as int);
            lemma_lists_lengths_concat(
                out@,
                lines(data@.subrange(0, lo as int)),
                part@,
                lines(data@.subrange(lo as int, hi as int)),
            );
        }
        append_values(&mut out, part);
        j = j + 1;
    }
    assert(data@.subrange(0, data@.len() as int) =~= data@);
    out
}


proof fn lemma_bucket_count_push(ls: Seq<Seq<u8>>, l: Seq<u8>, b: int)
    ensures
        bucket_count(ls.push(l), b) == bucket_count(ls, b) + (if bucket(l) == b {
            1int
        } else {
            0int
        }),
{
    ls.lemma_filter_len_push(|x: Seq<u8>| bucket(x) == b, l);
}

proof fn lemma_bucket_count_le(ls: Seq<Seq<u8>>, b: int)
    ensures
        bucket_count(ls, b) <= ls.len(),
{
    ls.lemma_filter_len(|x: Seq<u8>| bucket(x) == b);
}

/// Walks the lines of `data` and adds each to its bucket in `hist`.
fn generate_histogram_chunk(
    data: &[u8],
    hist: &mut HashMap<usize, usize>,
    Ghost(prev): Ghost<Seq<Seq<u8>>>,
)
    requires
        tallies(old(hist)@, prev),
        prev.len() + data@.len() <= usize::MAX,
    ensures
        tallies(final(hist)@, prev + lines(data@)),
{
    let n = data.len();
    let mut pos: usize = 0;
    assert(lines(data@.subrange(0, 0)) =~= Seq::<Seq<u8>>::empty());
    assert(prev + lines(data@.subrange(0, 0)) =~= prev);
    while pos < n
        invariant
            n == data@.len(),
            prev.len() + n <= usize::MAX,
            pos <= n,
            pos < n ==> at_line_start(data@, pos as int),
            tallies(hist@, prev + lines(data@.subrange(0, pos as int))),
        decreases n - pos,
    {
        let e = next_line_end(data, pos);
        proof {
            crate::linecount::lemma_walk_step(data@, pos as int);
        }
        let end = crate::linecount::content_end(data, pos, e);
        let b: usize = ((end - pos) / 10) * 10;
        let ghost old_ls = prev + lines(data@.subrange(0, pos as int));
        let ghost line = data@.subrange(pos as int, e as int);
        proof {
            assert(prev + lines(data@.subrange(0, pos as int)).push(line) =~= old_ls.push(line));
            assert(bucket(line) == b);
            lemma_lines_prefix_len(data@, pos as int);
            lemma_bucket_count_le(old_ls, b as int);
        }
        let current: usize = match hist.get(&b) {
            Some(v) => *v,
            None => 0,
        };
        hist.insert(b, current + 1);
        proof {
            let new_ls = old_ls.push(line);
            assert forall|c: usize| #![trigger hist@.contains_key(c)] #![trigger hist@[c]]
                (hist@.contains_key(c) <==> bucket_count(new_ls, c as int) > 0) && (hist@.contains_key(c) ==> hist@[c]
                == bucket_count(new_ls, c as int)) by {
                lemma_bucket_count_push(old_ls, line, c as int);
            }
        }
        pos = if e < n {
            e + 1
        } else {
            n
        };
    }
    assert(data@.subrange(0, n as int) =~= data@);
}

/// Adds each line of `ls`, whose content lengths `lengths` lists, to its
/// bucket in `hist`.
fn tally_lengths(lengths: &Vec<usize>, hist: &mut HashMap<usize, usize>, Ghost(ls): Ghost<Seq<Seq<u8>>>)
    requires
        lists_lengths(lengths@, ls),
        tallies(old(hist)@, Seq::empty()),
    ensures
        tallies(final(hist)@, ls),
{
    let n = lengths.len();
    let mut i: usize = 0;
    assert(ls.take(0) =~= Seq::<Seq<u8>>::empty());
    while i < n
        invariant
            n == lengths@.len(),
            lists_lengths(lengths@, ls),
            i <= n,
            tallies(hist@, ls.take(i as int)),
        decreases n - i,
    {
        let b: usize = (lengths[i] / 10) * 10;
        let ghost old_ls = ls.take(i as int);
        let ghost line = ls[i as int];
        proof {
            assert(lengths@[i as int] == content_len(ls[i as int]));
            assert(bucket(line) == b);
            assert(ls.take(i + 1) =~= old_ls.push(line));
            lemma_bucket_count_le(old_ls, b as int);
        }
        let current: usize = match hist.get(&b) {
            Some(v) => *v,
            None => 0,
        };
        hist.insert(b, current + 1);
        proof {
            let new_ls = old_ls.push(line);
            assert forall|c: usize| #![trigger hist@.contains_key(c)] #![trigger hist@[c]]
                (hist@.contains_key(c) <==> bucket_count(new_ls, c as int) > 0) && (hist@.contains_key(c) ==> hist@[c]
                == bucket_count(new_ls, c as int)) by {
                lemma_bucket_count_push(old_ls, line, c as int);
            }
        }
        i = i + 1;
    }
    assert(ls.take(n as int) =~= ls);
}

/// Histogram of line lengths: each bucket (a length rounded down to a
/// multiple of 10) that some line falls in, mapped to the number of lines in
/// it. A large buffer has its line lengths taken in parallel first.
pub fn generate_histogram(data: &[u8]) -> (res: HashMap<usize, usize>)
    ensures
        tallies(res@, lines(data@)),
{
    let mut hist: HashMap<usize, usize> = HashMap::new();
    assert(Seq::<Seq<u8>>::empty() + lines(data@) =~= lines(data@));
    assert forall|b: usize| #![trigger hist@.contains_key(b)] !hist@.contains_key(b) && bucket_count(Seq::<Seq<u8>>::empty(), b as int) == 0 by {
        reveal(Seq::filter);
    }
    if data.len() == 0 {
        assert(lines(data@) =~= Seq::<Seq<u8>>::empty());
        return hist;
    }
    if data.len() < PARALLEL_THRESHOLD || data.len() > usize::MAX - CHUNK_SIZE {
        generate_histogram_chunk(data, &mut hist, Ghost(Seq::empty()));
        return hist;
    }
    let lengths = line_lengths(data);
    tally_lengths(&lengths, &mut hist, Ghost(lines(data@)));
    hist
}


/// Sum of the values of `s`.
pub open spec fn seq_sum(s: Seq<usize>) -> int
    decreases s.len(),
{
    if s.len() == 0 {
        0
    } else {
        seq_sum(s.drop_last()) + s.last()
    }
}

/// Total content length of the lines `ls`.
pub open spec fn total_content(ls: Seq<Seq<u8>>) -> int
    decreases ls.len(),
{
    if ls.len() == 0 {
        0
    } else {
        total_content(ls.drop_last()) + content_len(ls.last())
    }
}

proof fn lemma_total_content_concat(x: Seq<Seq<u8>>, y: Seq<Seq<u8>>)
    ensures
        total_content(x + y) == total_content(x) + total_content(y),
    decreases y.len(),
{
    if y.len() == 0 {
        assert(x + y =~= x);
    } else {
        lemma_total_content_concat(x, y.drop_last());
        assert((x + y).drop_last() =~= x + y.drop_last());
    }
}

/// The contents of the lines of a buffer never hold more bytes than it.
proof fn lemma_total_content_le(s: Seq<u8>)
    ensures
        total_content(lines(s)) <= s.len(),
    decreases s.len(),
{
    if s.len() > 0 {
        crate::linecount::lemma_walk_step(s, 0);
        crate::lines::lemma_next_newline(s, 0);
        let e = next_newline(s, 0);
        assert(lines(s.subrange(0, 0)) =~= Seq::<Seq<u8>>::empty());
        let first = s.subrange(0, e);
        assert(seq![first].drop_last() =~= Seq::<Seq<u8>>::empty());
        assert(Seq::<Seq<u8>>::empty().push(first) =~= seq![first]);
        assert(seq![first].len() == 1);
        assert(seq![first].last() == first);
        assert(total_content(Seq::<Seq<u8>>::empty()) == 0);
        assert(total_content(seq![first]) == total_content(seq![first].drop_last()) + content_len(first));
        if e < s.len() {
            let rest = s.subrange(e + 1, s.len() as int);
            lemma_prefix_lines(s, e + 1, s.len() as int);
            assert(s.subrange(0, s.len() as int) =~= s);
            lemma_total_content_le(rest);
            lemma_total_content_concat(seq![first], lines(rest));
        }
    }
}

proof fn lemma_sum_lists(v: Seq<usize>, ls: Seq<Seq<u8>>)
    requires
        lists_lengths(v, ls),
    ensures
        seq_sum(v) == total_content(ls),
    decreases v.len(),
{
    if v.len() > 0 {
        lemma_sum_lists(v.drop_last(), ls.drop_last());
    }
}

/// Sorts `v` in ascending order: `<[usize]>::sort_unstable`, whose
/// documented result is an ascending rearrangement of the same values. The
/// contract restates that; nothing about it is proved here.
#[verifier::external_body]
fn sort_ascending(v: &mut Vec<usize>)
    ensures
        final(v)@.to_multiset() == old(v)@.to_multiset(),
        ascending(final(v)@),
{
    v.sort_unstable()
}

/// Integer statistics of the line lengths of a buffer. The mean and the
/// standard deviation are derived from `line_lengths`.
pub struct Statistics {
    pub line_count: usize,
    pub total_length: usize,
    pub median_line_length: usize,
    pub min_line_length: usize,
    pub max_line_length: usize,
    pub empty_lines: usize,
    pub line_lengths: Vec<usize>,
}

/// Whether `st` holds the statistics of the lines of `s`.
pub open spec fn describes(st: Statistics, s: Seq<u8>) -> bool {
    &&& lists_lengths(st.line_lengths@, lines(s))
    &&& st.line_count == lines(s).len()
    &&& st.total_length == seq_sum(st.line_lengths@)
    &&& st.empty_lines == st.line_lengths@.filter(|x: usize| x == 0).len()
    &&& lines(s).len() == 0 ==> st.median_line_length == 0 && st.min_line_length == 0
        && st.max_line_length == 0
    &&& lines(s).len() > 0 ==> {
        &&& st.min_line_length == kth_smallest(st.line_lengths@, 0)
        &&& st.max_line_length == kth_smallest(st.line_lengths@, lines(s).len() - 1)
        &&& st.median_line_length == median(st.line_lengths@)
    }
}

/// Statistics of the line lengths of `data` (content lengths, as
/// `line_lengths` gives them): their number, sum, median, minimum, maximum and
/// the number of empty lines. With no lines, every figure is 0.
pub fn calculate_statistics(data: &[u8]) -> (res: Statistics)
    ensures
        describes(res, data@),
{
    let lengths = line_lengths(data);
    let n = lengths.len();
    if n == 0 {
        proof {
            reveal(Seq::filter);
        }
        return Statistics {
            line_count: 0,
            total_length: 0,
            median_line_length: 0,
            min_line_length: 0,
            max_line_length: 0,
            empty_lines: 0,
            line_lengths: lengths,
        };
    }
    proof {
        lemma_sum_lists(lengths@, lines(data@));
        lemma_total_content_le(data@);
    }
    let data_len = data.len();
    let ghost zero = |x: usize| x == 0;
    let mut sum: usize = 0;
    let mut empty: usize = 0;
    let mut i: usize = 0;
    assert(lengths@.take(0) =~= Seq::<usize>::empty());
    proof {
        reveal(Seq::filter);
    }
    while i < n
        invariant
            n == lengths@.len(),
            i <= n,
            seq_sum(lengths@) <= data_len,
            zero == (|x: usize| x == 0),
            sum == seq_sum(lengths@.take(i as int)),
            empty == lengths@.take(i as int).filter(zero).len(),
            empty <= i,
        decreases n - i,
    {
        proof {
            assert(lengths@.take(i + 1).drop_last() =~= lengths@.take(i as int));
            assert(lengths@.take(i as int).push(lengths@[i as int]) =~= lengths@.take(i + 1));
            lengths@.take(i as int).lemma_filter_len_push(zero, lengths@[i as int]);
            lemma_sum_prefix_le(lengths@, i as int + 1);
            assert(lengths@.take(i + 1).last() == lengths@[i as int]);
            assert(seq_sum(lengths@.take(i + 1)) == sum + lengths@[i as int]);
        }
        sum = sum + lengths[i];
        if lengths[i] == 0 {
            empty = empty + 1;
        }
        i = i + 1;
    }
    assert(lengths@.take(n as int) =~= lengths@);
    let mut sorted = lengths.clone();
    assert(sorted@ =~= lengths@);
    sort_ascending(&mut sorted);
    proof {
        vstd::seq_lib::to_multiset_len(sorted@);
        vstd::seq_lib::to_multiset_len(lengths@);
    }
    let half = n / 2;
    let med = if n % 2 == 0 {
        proof {
            lemma_sorted_kth(lengths@, sorted@, half - 1);
            lemma_sorted_kth(lengths@, sorted@, half as int);
        }
        let lo = sorted[half - 1];
        let hi = sorted[half];
        lo / 2 + hi / 2 + (lo % 2 + hi % 2) / 2
    } else {
        proof {
            lemma_sorted_kth(lengths@, sorted@, half as int);
        }
        sorted[half]
    };
    proof {
        lemma_sorted_kth(lengths@, sorted@, 0);
        lemma_sorted_kth(lengths@, sorted@, n - 1);
    }
    Statistics {
        line_count: n,
        total_length: sum,
        median_line_length: med,
        min_line_length: sorted[0],
        max_line_length: sorted[n - 1],
        empty_lines: empty,
        line_lengths: lengths,
    }
}

proof fn lemma_sum_prefix_le(s: Seq<usize>, k: int)
    requires
        0 <= k <= s.len(),
    ensures
        seq_sum(s.take(k)) <= seq_sum(s),
    decreases s.len() - k,
{
    if k < s.len() {
        lemma_sum_prefix_le(s, k + 1);
        assert(s.take(k + 1).drop_last() =~= s.take(k));
    } else {
        assert(s.take(k) =~= s);
    }
}


/// The statistics of a buffer with lines are ordered: the shortest line is no
/// longer than the median, which is no longer than the longest line; and
/// there are no more empty lines than lines.
pub proof fn lemma_statistics_ordered(st: Statistics, s: Seq<u8>)
    requires
        describes(st, s),
    ensures
        st.empty_lines <= st.line_count,
        st.line_count > 0 ==> st.min_line_length <= st.median_line_length <= st.max_line_length,
{
    st.line_lengths@.lemma_filter_len(|x: usize| x == 0);
    if st.line_count > 0 {
        crate::order::lemma_median_between(st.line_lengths@);
    }
}

/// Line contents split piecewise: when the first part of a buffer is empty or
/// ends with a newline, its line lengths are those of the first part followed
/// by those of the second, and each histogram bucket counts the lines of both.
pub proof fn lemma_line_stats_concat(a: Seq<u8>, b: Seq<u8>, k: int)
    requires
        a.len() > 0 ==> a.last() == crate::count::NEWLINE,
    ensures
        lines(a + b) == lines(a) + lines(b),
        bucket_count(lines(a + b), k) == bucket_count(lines(a), k) + bucket_count(lines(b), k),
        total_content(lines(a + b)) == total_content(lines(a)) + total_content(lines(b)),
{
    crate::lines::lemma_lines_concat(a, b);
    Seq::filter_distributes_over_add(lines(a), lines(b), |l: Seq<u8>| bucket(l) == k);
    lemma_total_content_concat(lines(a), lines(b));
}

/// The counts a histogram `m` holds for its first `n` buckets, 0, 10, ...,
/// `10 * (n - 1)`, added up (a bucket that `m` does not hold counts 0).
pub open spec fn bucket_sum(m: Map<usize, usize>, n: nat) -> int
    decreases n,
{
    if n == 0 {
        0
    } else {
        let b = ((n - 1) * 10) as usize;
        bucket_sum(m, (n - 1) as nat) + if m.contains_key(b) {
            m[b] as int
        } else {
            0
        }
    }
}

/// Number of lines of `ls` in the first `n` buckets.
spec fn lines_below(ls: Seq<Seq<u8>>, n: nat) -> int
    decreases n,
{
    if n == 0 {
        0
    } else {
        lines_below(ls, (n - 1) as nat) + bucket_count(ls, (n - 1) * 10)
    }
}

proof fn lemma_bucket_sum_lines(m: Map<usize, usize>, ls: Seq<Seq<u8>>, n: nat)
    requires
        tallies(m, ls),
        n * 10 <= usize::MAX + 1,
    ensures
        bucket_sum(m, n) == lines_below(ls, n),
    decreases n,
{
    if n > 0 {
        lemma_bucket_sum_lines(m, ls, (n - 1) as nat);
        let b = ((n - 1) * 10) as usize;
        assert(b == (n - 1) * 10);
        if m.contains_key(b) {
        }
    }
}

proof fn lemma_bucket_shape(l: Seq<u8>)
    ensures
        0 <= bucket(l) <= content_len(l),
        bucket(l) % 10 == 0,
        bucket(l) == (content_len(l) / 10) * 10,
{
    let c = content_len(l);
    assert((c / 10) * 10 <= c && (c / 10) * 10 >= 0 && ((c / 10) * 10) % 10 == 0) by (nonlinear_arith)
        requires
            c >= 0,
    ;
}

proof fn lemma_lines_below_push(ls: Seq<Seq<u8>>, l: Seq<u8>, n: nat)
    ensures
        lines_below(ls.push(l), n) == lines_below(ls, n) + if bucket(l) < n * 10 {
            1int
        } else {
            0int
        },
    decreases n,
{
    lemma_bucket_shape(l);
    if n > 0 {
        lemma_lines_below_push(ls, l, (n - 1) as nat);
        lemma_bucket_count_push(ls, l, (n - 1) * 10);
        let q = content_len(l) / 10;
        assert(bucket(l) == q * 10);
        assert((bucket(l) == (n - 1) * 10) <==> ((n - 1) * 10 <= bucket(l) < n * 10));
    }
}

proof fn lemma_lines_below_empty(n: nat)
    ensures
        lines_below(Seq::<Seq<u8>>::empty(), n) == 0,
    decreases n,
{
    if n > 0 {
        lemma_lines_below_empty((n - 1) as nat);
        reveal(Seq::filter);
        assert(Seq::<Seq<u8>>::empty().filter(|x: Seq<u8>| bucket(x) == (n - 1) * 10) =~= Seq::<Seq<u8>>::empty());
    }
}

proof fn lemma_lines_below_all(ls: Seq<Seq<u8>>, n: nat)
    requires
        forall|k: int| 0 <= k < ls.len() ==> content_len(#[trigger] ls[k]) < n * 10,
    ensures
        lines_below(ls, n) == ls.len(),
    decreases ls.len(),
{
    if ls.len() == 0 {
        assert(ls =~= Seq::<Seq<u8>>::empty());
        lemma_lines_below_empty(n);
    } else {
        let init = ls.drop_last();
        assert forall|k: int| 0 <= k < init.len() implies content_len(#[trigger] init[k]) < n * 10 by {
            assert(init[k] == ls[k]);
        }
        lemma_lines_below_all(init, n);
        assert(init.push(ls.last()) =~= ls);
        lemma_lines_below_push(init, ls.last(), n);
        lemma_bucket_shape(ls.last());
        assert(content_len(ls[ls.len() - 1]) < n * 10);
    }
}

proof fn lemma_bucket_witness(ls: Seq<Seq<u8>>, b: int)
    requires
        bucket_count(ls, b) > 0,
    ensures
        exists|k: int| 0 <= k < ls.len() && bucket(#[trigger] ls[k]) == b,
    decreases ls.len(),
{
    if ls.len() == 0 {
        assert(ls =~= Seq::<Seq<u8>>::empty());
        reveal(Seq::filter);
        assert(Seq::<Seq<u8>>::empty().filter(|x: Seq<u8>| bucket(x) == b) =~= Seq::<Seq<u8>>::empty());
    } else {
        let init = ls.drop_last();
        assert(init.push(ls.last()) =~= ls);
        lemma_bucket_count_push(init, ls.last(), b);
        if bucket(ls.last()) == b {
            assert(bucket(ls[ls.len() - 1]) == b);
        } else {
            lemma_bucket_witness(init, b);
            let k = choose|k: int| 0 <= k < init.len() && bucket(#[trigger] init[k]) == b;
            assert(ls[k] == init[k]);
        }
    }
}

/// The counts of a histogram add up to the number of lines: when every line
/// of `ls` is shorter than `10 * n`, each bucket `m` holds is a multiple of 10
/// below `10 * n`, and the counts of the buckets 0, 10, ..., `10 * (n - 1)`
/// sum to the number of lines.
pub proof fn lemma_histogram_total(m: Map<usize, usize>, ls: Seq<Seq<u8>>, n: nat)
    requires
        tallies(m, ls),
        n * 10 <= usize::MAX + 1,
        forall|k: int| 0 <= k < ls.len() ==> content_len(#[trigger] ls[k]) < n * 10,
    ensures
        forall|b: usize| #[trigger] m.contains_key(b) ==> b % 10 == 0 && b < n * 10,
        bucket_sum(m, n) == ls.len(),
{
    assert forall|b: usize| #[trigger] m.contains_key(b) implies b % 10 == 0 && b < n * 10 by {
        lemma_bucket_witness(ls, b as int);
        let k = choose|k: int| 0 <= k < ls.len() && bucket(#[trigger] ls[k]) == b;
        lemma_bucket_shape(ls[k]);
        assert(content_len(ls[k]) < n * 10);
    }
    lemma_bucket_sum_lines(m, ls, n);
    lemma_lines_below_all(ls, n);
}

/// Histograms add up over a cut at a line start: the histogram of the whole
/// holds the buckets of either part, each with the sum of the parts' counts.
pub proof fn lemma_histogram_concat(
    a: Seq<u8>,
    b: Seq<u8>,
    m: Map<usize, usize>,
    ma: Map<usize, usize>,
    mb: Map<usize, usize>,
)
    requires
        a.len() > 0 ==> a.last() == crate::count::NEWLINE,
        tallies(m, lines(a + b)),
        tallies(ma, lines(a)),
        tallies(mb, lines(b)),
    ensures
        forall|k: usize| #[trigger] m.contains_key(k) <==> (ma.contains_key(k) || mb.contains_key(k)),
        forall|k: usize|
            #[trigger] m.contains_key(k) ==> m[k] == (if ma.contains_key(k) {
                ma[k] as int
            } else {
                0
            }) + (if mb.contains_key(k) {
                mb[k] as int
            } else {
                0
            }),
{
    assert forall|k: usize| #[trigger] m.contains_key(k) <==> (ma.contains_key(k) || mb.contains_key(k)) by {
        lemma_line_stats_concat(a, b, k as int);
    }
    assert forall|k: usize| #[trigger] m.contains_key(k) implies m[k] == (if ma.contains_key(k) {
        ma[k] as int
    } else {
        0
    }) + (if mb.contains_key(k) {
        mb[k] as int
    } else {
        0
    }) by {
        lemma_line_stats_concat(a, b, k as int);
    }
}

proof fn lemma_line_lengths_le(s: Seq<u8>, i: int)
    requires
        0 <= i,
    ensures
        forall|k: int| 0 <= k < lines_from(s, i).len() ==> (#[trigger] lines_from(s, i)[k]).len() <= s.len(),
    decreases s.len() - i,
{
    if i < s.len() {
        crate::lines::lemma_next_newline(s, i);
        let e = next_newline(s, i);
        if e < s.len() {
            lemma_line_lengths_le(s, e + 1);
            let ls = lines_from(s, i);
            assert forall|k: int| 0 <= k < ls.len() implies (#[trigger] ls[k]).len() <= s.len() by {
                if k > 0 {
                    assert(ls[k] == lines_from(s, e + 1)[k - 1]);
                }
            }
        }
    }
}

/// The histogram of a buffer accounts for every line: its buckets are
/// multiples of 10 no longer than the buffer, and the counts of the buckets
/// 0, 10, ... up to the buffer's length sum to the number of lines.
pub proof fn lemma_histogram_of_buffer(m: Map<usize, usize>, s: Seq<u8>)
    requires
        tallies(m, lines(s)),
        s.len() + 10 <= usize::MAX,
    ensures
        forall|b: usize| #[trigger] m.contains_key(b) ==> b % 10 == 0 && b <= s.len(),
        bucket_sum(m, (s.len() / 10 + 1) as nat) == lines(s).len(),
{
    let n = (s.len() / 10 + 1) as nat;
    assert(s.len() < n * 10 && n * 10 <= s.len() + 10);
    lemma_line_lengths_le(s, 0);
    let ls = lines(s);
    assert forall|k: int| 0 <= k < ls.len() implies content_len(#[trigger] ls[k]) < n * 10 by {
        assert(ls[k].len() <= s.len());
    }
    lemma_histogram_total(m, ls, n);
    assert forall|b: usize| #[trigger] m.contains_key(b) implies b % 10 == 0 && b <= s.len() by {
        lemma_bucket_witness(ls, b as int);
        let k = choose|k: int| 0 <= k < ls.len() && bucket(#[trigger] ls[k]) == b;
        lemma_bucket_shape(ls[k]);
        assert(ls[k].len() <= s.len());
    }
}

} // verus!
