//! Work on the pieces of a buffer spread over a thread pool, by `rayon`.

use vstd::prelude::*;
use rayon::iter::{IndexedParallelIterator, ParallelIterator};
use rayon::slice::ParallelSlice;

verus! {

/// `rayon`'s `par_windows(2)` over the cut points `bounds`, `map` and
/// `collect_into_vec`: calls `f` on every pair of consecutive cut points, in
/// parallel, and gives the results in the order of the pairs. The contract
/// claims that one result comes per pair, in order, and that each is a result
/// `f` may give for its pair; nothing about it is proved here.
#[verifier::external_body]
pub(crate) fn map_pieces<T: Send, F: Fn(usize, usize) -> T + Sync>(bounds: &Vec<usize>, f: F) -> (res: Vec<T>)
    requires
        bounds@.len() >= 1,
        forall|k: int| 0 <= k < bounds@.len() - 1 ==> call_requires(f, (#[trigger] bounds@[k], bounds@[k + 1])),
    ensures
        res@.len() == bounds@.len() - 1,
        forall|k: int| 0 <= k < bounds@.len() - 1 ==> call_ensures(f, (bounds@[k], bounds@[k + 1]), #[trigger] res@[k]),
{
    let mut out: Vec<T> = Vec::new();
    bounds.par_windows(2).map(|w| f(w[0], w[1])).collect_into_vec(&mut out);
    out
}

} // verus!
