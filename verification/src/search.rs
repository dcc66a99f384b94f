//! Byte and substring search, done by the `memchr` crate.

use vstd::prelude::*;

verus! {

/// Whether `needle` occurs in `hay` starting at index `i`.
pub open spec fn occurs_at(hay: Seq<u8>, needle: Seq<u8>, i: int) -> bool {
    0 <= i && i + needle.len() <= hay.len() && hay.subrange(i, i + needle.len()) == needle
}

/// `memchr::memchr`: the index of the first byte of `haystack` equal to
/// `needle`, or `None` when no byte is. The contract restates that
/// documented behaviour; nothing about it is proved here.
#[verifier::external_body]
pub(crate) fn find_byte(needle: u8, haystack: &[u8]) -> (res: Option<usize>)
    ensures
        match res {
            Some(i) => {
                &&& i < haystack@.len()
                &&& haystack@[i as int] == needle
                &&& forall|k: int| 0 <= k < i ==> haystack@[k] != needle
            },
            None => forall|k: int| 0 <= k < haystack@.len() ==> haystack@[k] != needle,
        },
{
    memchr::memchr(needle, haystack)
}

/// `memchr::memmem::find`: the index of the first occurrence of `needle` in
/// `haystack`, or `None` when it does not occur. The contract restates that
/// documented behaviour (for a non-empty needle); nothing about it is proved
/// here.
#[verifier::external_body]
pub(crate) fn find_bytes(haystack: &[u8], needle: &[u8]) -> (res: Option<usize>)
    requires
        needle@.len() > 0,
    ensures
        match res {
            Some(i) => {
                &&& occurs_at(haystack@, needle@, i as int)
                &&& forall|k: int| 0 <= k < i ==> !occurs_at(haystack@, needle@, k)
            },
            None => forall|k: int| !occurs_at(haystack@, needle@, k),
        },
{
    memchr::memmem::find(haystack, needle)
}

} // verus!
