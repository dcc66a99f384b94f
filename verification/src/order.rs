//! Order statistics of a list of lengths: the k-th smallest value, and the
//! facts that tie it to a sorted copy of the list.

use vstd::prelude::*;
use vstd::multiset::Multiset;

verus! {

/// Number of values of `s` below `v`.
pub open spec fn count_below(s: Seq<usize>, v: int) -> nat {
    s.filter(|x: usize| x < v).len()
}

/// Number of values of `s` at most `v`.
pub open spec fn count_up_to(s: Seq<usize>, v: int) -> nat {
    s.filter(|x: usize| x <= v).len()
}

/// Whether `v` is the `k`-th smallest value of `s`, counting from 0: fewer
/// than `k + 1` values lie below it and more than `k` lie at or below it.
pub open spec fn is_kth_smallest(s: Seq<usize>, k: int, v: int) -> bool {
    count_below(s, v) <= k < count_up_to(s, v)
}

/// The `k`-th smallest value of `s`, counting from 0.
pub open spec fn kth_smallest(s: Seq<usize>, k: int) -> int {
    choose|v: int| is_kth_smallest(s, k, v)
}

/// The median of `s`: its middle value, or the mean of its two middle values
/// rounded down when it has an even number of them.
pub open spec fn median(s: Seq<usize>) -> int {
    let half = (s.len() / 2) as int;
    if s.len() % 2 == 0 {
        (kth_smallest(s, half - 1) + kth_smallest(s, half)) / 2
    } else {
        kth_smallest(s, half)
    }
}

/// Whether `s` is in ascending order.
pub open spec fn ascending(s: Seq<usize>) -> bool {
    forall|i: int, j: int| 0 <= i <= j < s.len() ==> s[i] <= s[j]
}

proof fn lemma_filter_monotone(s: Seq<usize>, p: spec_fn(usize) -> bool, q: spec_fn(usize) -> bool)
    requires
        forall|x: usize| #[trigger] p(x) ==> q(x),
    ensures
        s.filter(p).len() <= s.filter(q).len(),
    decreases s.len(),
{
    reveal(Seq::filter);
    if s.len() > 0 {
        lemma_filter_monotone(s.drop_last(), p, q);
    }
}

proof fn lemma_filter_all(s: Seq<usize>, p: spec_fn(usize) -> bool)
    requires
        forall|i: int| 0 <= i < s.len() ==> #[trigger] p(s[i]),
    ensures
        s.filter(p).len() == s.len(),
    decreases s.len(),
{
    reveal(Seq::filter);
    if s.len() > 0 {
        lemma_filter_all(s.drop_last(), p);
    }
}

proof fn lemma_filter_none(s: Seq<usize>, p: spec_fn(usize) -> bool)
    requires
        forall|i: int| 0 <= i < s.len() ==> !#[trigger] p(s[i]),
    ensures
        s.filter(p).len() == 0,
    decreases s.len(),
{
    reveal(Seq::filter);
    if s.len() > 0 {
        lemma_filter_none(s.drop_last(), p);
    }
}

proof fn lemma_filter_remove(t: Seq<usize>, i: int, p: spec_fn(usize) -> bool)
    requires
        0 <= i < t.len(),
    ensures
        t.filter(p).len() == t.remove(i).filter(p).len() + (if p(t[i]) {
            1int
        } else {
            0int
        }),
{
    let a = t.take(i);
    let b = t.skip(i + 1);
    assert(t =~= a + seq![t[i]] + b);
    assert(t.remove(i) =~= a + b);
    Seq::filter_distributes_over_add(a + seq![t[i]], b, p);
    Seq::filter_distributes_over_add(a, seq![t[i]], p);
    Seq::filter_distributes_over_add(a, b, p);
    let one = seq![t[i]];
    assert(one.drop_last() =~= Seq::<usize>::empty());
    assert(Seq::<usize>::empty().push(t[i]) =~= one);
    Seq::<usize>::empty().lemma_filter_len_push(p, t[i]);
    lemma_filter_none(Seq::<usize>::empty(), p);
}

/// Two lists that hold the same values, each as often, have as many values
/// that pass any test.
pub proof fn lemma_permutation_filter_len(s: Seq<usize>, t: Seq<usize>, p: spec_fn(usize) -> bool)
    requires
        s.to_multiset() == t.to_multiset(),
    ensures
        s.filter(p).len() == t.filter(p).len(),
    decreases s.len(),
{
    broadcast use vstd::seq_lib::to_multiset_len, vstd::seq_lib::to_multiset_contains;
    broadcast use vstd::multiset::group_multiset_axioms;

    if s.len() == 0 {
        assert(s.to_multiset().len() == 0);
        assert(t.to_multiset().len() == t.len());
        assert(t.len() == 0);
        assert(s =~= t);
    } else {
        let x = s.last();
        let s1 = s.drop_last();
        assert(s1.push(x) =~= s);
        vstd::seq_lib::to_multiset_build(s1, x);
        assert(t.to_multiset().count(x) > 0);
        assert(t.contains(x));
        let i = choose|i: int| 0 <= i < t.len() && t[i] == x;
        let t1 = t.remove(i);
        vstd::seq_lib::to_multiset_remove(t, i);
        assert(s.to_multiset() == s1.to_multiset().insert(x));
        assert(t1.to_multiset() == t.to_multiset().remove(x));
        assert(s1.to_multiset().insert(x).remove(x) =~= s1.to_multiset());
        assert(s1.to_multiset() =~= t1.to_multiset());
        lemma_permutation_filter_len(s1, t1, p);
        s1.lemma_filter_len_push(p, x);
        lemma_filter_remove(t, i, p);
    }
}

/// In an ascending list the value at index `k` is its `k`-th smallest.
pub proof fn lemma_ascending_kth(t: Seq<usize>, k: int)
    requires
        ascending(t),
        0 <= k < t.len(),
    ensures
        is_kth_smallest(t, k, t[k] as int),
{
    let v = t[k] as int;
    let below = |x: usize| x < v;
    let up_to = |x: usize| x <= v;
    let a = t.take(k);
    let b = t.skip(k);
    assert(t =~= a + b);
    Seq::filter_distributes_over_add(a, b, below);
    a.lemma_filter_len(below);
    lemma_filter_none(b, below);
    let c = t.take(k + 1);
    let d = t.skip(k + 1);
    assert(t =~= c + d);
    Seq::filter_distributes_over_add(c, d, up_to);
    lemma_filter_all(c, up_to);
}

/// The `k`-th smallest value is unique.
pub proof fn lemma_kth_unique(s: Seq<usize>, k: int, a: int, b: int)
    requires
        is_kth_smallest(s, k, a),
        is_kth_smallest(s, k, b),
    ensures
        a == b,
{
    if a < b {
        lemma_filter_monotone(s, |x: usize| x <= a, |x: usize| x < b);
    } else if b < a {
        lemma_filter_monotone(s, |x: usize| x <= b, |x: usize| x < a);
    }
}

/// The `k`-th smallest value of a list is the value at index `k` of any
/// ascending rearrangement of it.
pub proof fn lemma_sorted_kth(s: Seq<usize>, t: Seq<usize>, k: int)
    requires
        s.to_multiset() == t.to_multiset(),
        ascending(t),
        0 <= k < t.len(),
    ensures
        kth_smallest(s, k) == t[k],
{
    let v = t[k] as int;
    lemma_ascending_kth(t, k);
    lemma_permutation_filter_len(s, t, |x: usize| x < v);
    lemma_permutation_filter_len(s, t, |x: usize| x <= v);
    assert(is_kth_smallest(s, k, v));
    let w = kth_smallest(s, k);
    lemma_kth_unique(s, k, v, w);
}


/// Every list has an ascending rearrangement.
pub proof fn lemma_ascending_exists(s: Seq<usize>) -> (t: Seq<usize>)
    ensures
        t.to_multiset() == s.to_multiset(),
        ascending(t),
{
    let leq = |a: usize, b: usize| a <= b;
    assert(vstd::relations::total_ordering(leq));
    s.lemma_sort_by_ensures(leq);
    let t = s.sort_by(leq);
    vstd::seq_lib::to_multiset_len(s);
    vstd::seq_lib::to_multiset_len(t);
    assert forall|i: int, j: int| 0 <= i <= j < t.len() implies t[i] <= t[j] by {
        if i < j {
            assert(leq(t[i], t[j]));
        }
    }
    t
}

/// Order statistics grow with their rank: the `i`-th smallest value is at most
/// the `j`-th when `i <= j`.
pub proof fn lemma_kth_monotone(s: Seq<usize>, i: int, j: int)
    requires
        0 <= i <= j < s.len(),
    ensures
        kth_smallest(s, i) <= kth_smallest(s, j),
{
    let t = lemma_ascending_exists(s);
    vstd::seq_lib::to_multiset_len(s);
    vstd::seq_lib::to_multiset_len(t);
    lemma_sorted_kth(s, t, i);
    lemma_sorted_kth(s, t, j);
}

/// The median of a non-empty list lies between its smallest and its largest
/// value.
pub proof fn lemma_median_between(s: Seq<usize>)
    requires
        s.len() > 0,
    ensures
        kth_smallest(s, 0) <= median(s) <= kth_smallest(s, s.len() - 1),
{
    let half = (s.len() / 2) as int;
    lemma_kth_monotone(s, 0, half);
    lemma_kth_monotone(s, half, s.len() - 1);
    if s.len() % 2 == 0 {
        lemma_kth_monotone(s, 0, half - 1);
        lemma_kth_monotone(s, half - 1, half);
    }
}

} // verus!
