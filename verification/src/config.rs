//! The options a run is given.

use vstd::prelude::*;

verus! {

/// What to count and how to report it.
pub struct Args {
    /// Files to process (standard input when there are none).
    pub files: Vec<String>,
    pub lines: bool,
    pub bytes: bool,
    pub chars: bool,
    pub words: bool,
    pub max_line_length: bool,
    /// A pattern whose occurrences are counted.
    pub pattern: Option<String>,
    /// A file that lists the files to process, separated by NUL bytes.
    pub files0_from: Option<String>,
    pub json: bool,
    pub stats: bool,
    pub unique: bool,
    pub recursive: bool,
    /// Glob patterns of files to leave out of a recursive walk.
    pub exclude: Vec<String>,
    pub histogram: bool,
    pub code: bool,
    pub markdown: bool,
    pub verbose: bool,
    pub timing: bool,
    pub blank_lines: bool,
    pub total_only: bool,
    /// The encoding to decode the input from.
    pub encoding: Option<String>,
    pub progress: bool,
}

/// Whether `a` asks for no count at all.
pub open spec fn selects_nothing(a: Args) -> bool {
    !a.lines && !a.bytes && !a.chars && !a.words && !a.max_line_length && a.pattern is None
        && !a.stats && !a.unique && !a.histogram && !a.blank_lines
}

/// Whether `a` asks for nothing but lines and bytes, of the input as it
/// stands: no other count, no decoding and no filtering.
pub open spec fn lines_and_bytes_only(a: Args) -> bool {
    !a.words && !a.chars && !a.max_line_length && !a.blank_lines && !a.unique
        && a.pattern is None && !a.stats && !a.histogram && !a.code && !a.markdown
        && a.encoding is None
}

impl Args {
    /// With no count asked for, asks for lines, words and bytes, as `wc` does;
    /// otherwise changes nothing.
    pub fn normalize(&mut self)
        ensures
            selects_nothing(*old(self)) ==> *final(self) == (Args {
                lines: true,
                bytes: true,
                words: true,
                ..*old(self)
            }),
            !selects_nothing(*old(self)) ==> *final(self) == *old(self),
            !selects_nothing(*final(self)),
    {
        if !self.lines && !self.bytes && !self.chars && !self.words && !self.max_line_length
            && self.pattern.is_none() && !self.stats && !self.unique && !self.histogram
            && !self.blank_lines {
            self.lines = true;
            self.bytes = true;
            self.words = true;
        }
    }

    /// Whether the counts asked for split cleanly at any byte, so that an
    /// input can be counted a chunk at a time: lines or bytes, and nothing
    /// else.
    pub fn counts_by_chunk(&self) -> (res: bool)
        ensures
            res == ((self.lines || self.bytes) && lines_and_bytes_only(*self)),
    {
        (self.lines || self.bytes) && self.only_lines_and_bytes()
    }

    /// Whether the byte count alone is asked for, so that an input's size
    /// answers it.
    pub fn needs_only_bytes(&self) -> (res: bool)
        ensures
            res == (self.bytes && !self.lines && lines_and_bytes_only(*self)),
    {
        self.bytes && !self.lines && self.only_lines_and_bytes()
    }

    fn only_lines_and_bytes(&self) -> (res: bool)
        ensures
            res == lines_and_bytes_only(*self),
    {
        !self.words && !self.chars && !self.max_line_length && !self.blank_lines && !self.unique
            && self.pattern.is_none() && !self.stats && !self.histogram && !self.code
            && !self.markdown && self.encoding.is_none()
    }
}

} // verus!
