//! Line and byte counts of a stream that arrives a chunk at a time.

use vstd::prelude::*;
use crate::config::Args;
use crate::count::{byte_count, count_lines, lemma_byte_count_concat, lemma_byte_count_le, NEWLINE};
use crate::report::{Counts, is_zero};

verus! {

/// Size of the chunks a stream is read in.
pub const STREAM_CHUNK: usize = 256 * 1024;

/// Running line and byte counts of the bytes fed so far. Newlines and bytes
/// split cleanly at any boundary, so no chunk needs to be kept.
pub struct StreamTally {
    lines: usize,
    bytes: usize,
    seen: Ghost<Seq<u8>>,
}

impl StreamTally {
    /// The bytes fed so far, in order.
    pub closed spec fn consumed(&self) -> Seq<u8> {
        self.seen@
    }

    #[verifier::type_invariant]
    spec fn counts_seen(&self) -> bool {
        &&& self.lines == byte_count(self.seen@, NEWLINE)
        &&& self.bytes == self.seen@.len()
    }

    /// A tally of nothing.
    pub fn new() -> (res: StreamTally)
        ensures
            res.consumed() == Seq::<u8>::empty(),
    {
        StreamTally { lines: 0, bytes: 0, seen: Ghost(Seq::empty()) }
    }

    /// Adds `chunk` to the tally and returns `true`; when the byte count would
    /// no longer fit in a `usize`, returns `false` and changes nothing.
    pub fn feed(&mut self, chunk: &[u8]) -> (ok: bool)
        ensures
            ok <==> old(self).consumed().len() + chunk@.len() <= usize::MAX,
            ok ==> final(self).consumed() == old(self).consumed() + chunk@,
            !ok ==> final(self).consumed() == old(self).consumed(),
    {
        proof {
            use_type_invariant(&*self);
        }
        if chunk.len() > usize::MAX - self.bytes {
            return false;
        }
        let k = count_lines(chunk);
        let ghost next = self.seen@ + chunk@;
        proof {
            lemma_byte_count_concat(self.seen@, chunk@, NEWLINE);
            lemma_byte_count_le(next, NEWLINE, 0);
        }
        let lines = self.lines + k;
        let bytes = self.bytes + chunk.len();
        *self = StreamTally { lines, bytes, seen: Ghost(next) };
        true
    }

    /// Number of newline bytes fed so far.
    pub fn lines(&self) -> (res: usize)
        ensures
            res == byte_count(self.consumed(), NEWLINE),
    {
        proof {
            use_type_invariant(self);
        }
        self.lines
    }

    /// Number of bytes fed so far.
    pub fn bytes(&self) -> (res: usize)
        ensures
            res == self.consumed().len(),
    {
        proof {
            use_type_invariant(self);
        }
        self.bytes
    }

    /// The counts of the bytes fed so far that `args` asks for: lines and
    /// bytes; every other count is 0.
    pub fn counts(&self, args: &Args) -> (res: Counts)
        ensures
            res.lines == (if args.lines { byte_count(self.consumed(), NEWLINE) } else { 0 }),
            res.bytes == (if args.bytes { self.consumed().len() } else { 0 }),
            is_zero(&(Counts { lines: 0, bytes: 0, ..res })),
    {
        let mut c = Counts::new();
        if args.lines {
            c.lines = self.lines();
        }
        if args.bytes {
            c.bytes = self.bytes();
        }
        c
    }
}

} // verus!
