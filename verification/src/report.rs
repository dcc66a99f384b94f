//! The counts of one input, how a run's options select them, and how they
//! are laid out in a line of output.

use vstd::prelude::*;
use vstd::utf8::encode_utf8;
use std::collections::HashMap;
use crate::config::Args;
use crate::count::{byte_count, count_chars, count_lines, is_binary, looks_binary, NEWLINE};
use crate::encoding::{decode_result, decode_to_utf8, encoding_decodes};
use crate::filter::{code_filtered, filter_code_comments, filter_markdown_code, markdown_filtered};
use crate::linecount::{blank_line_count, count_blank_lines, max_line_length, max_width};
use crate::lines::lines;
use crate::pattern::{count_pattern, pattern_count};
use crate::stats::{calculate_statistics, describes, generate_histogram, tallies, Statistics};
use crate::text::char_count;
use crate::width::cap;
use crate::words::{count_all_words, count_unique_words, unique_word_count, word_count};

verus! {

/// The counts taken of one input (or the totals of several).
pub struct Counts {
    pub lines: usize,
    pub words: usize,
    pub bytes: usize,
    pub chars: usize,
    pub max_line_length: usize,
    pub blank_lines: usize,
    pub pattern: usize,
    pub unique_words: usize,
    pub statistics: Option<Statistics>,
    pub histogram: Option<HashMap<usize, usize>>,
}

/// Whether every count of `c` is 0 and it holds no statistics and no
/// histogram.
pub open spec fn is_zero(c: &Counts) -> bool {
    &&& c.lines == 0
    &&& c.words == 0
    &&& c.bytes == 0
    &&& c.chars == 0
    &&& c.max_line_length == 0
    &&& c.blank_lines == 0
    &&& c.pattern == 0
    &&& c.unique_words == 0
    &&& c.statistics is None
    &&& c.histogram is None
}

/// Whether the counts of `a` and `b` can be added without overflow.
pub open spec fn addable(a: &Counts, b: &Counts) -> bool {
    &&& a.lines + b.lines <= usize::MAX
    &&& a.words + b.words <= usize::MAX
    &&& a.bytes + b.bytes <= usize::MAX
    &&& a.chars + b.chars <= usize::MAX
    &&& a.blank_lines + b.blank_lines <= usize::MAX
    &&& a.pattern + b.pattern <= usize::MAX
    &&& a.unique_words + b.unique_words <= usize::MAX
}

/// The larger of `a` and `b`.
pub open spec fn larger(a: usize, b: usize) -> usize {
    if a >= b {
        a
    } else {
        b
    }
}

/// The larger of two widths is at least each of them and is one of them:
/// totalling keeps the longest line.
pub proof fn lemma_larger_is_maximum(a: usize, b: usize)
    ensures
        larger(a, b) >= a,
        larger(a, b) >= b,
        larger(a, b) == a || larger(a, b) == b,
{
}

/// The counts selected by `a`, in the order of output: lines, words,
/// characters, bytes, longest line, blank lines, unique words, pattern.
pub open spec fn selected_values(c: &Counts, a: &Args) -> Seq<usize> {
    let s1 = push_if(Seq::empty(), a.lines, c.lines);
    let s2 = push_if(s1, a.words, c.words);
    let s3 = push_if(s2, a.chars, c.chars);
    let s4 = push_if(s3, a.bytes, c.bytes);
    let s5 = push_if(s4, a.max_line_length, c.max_line_length);
    let s6 = push_if(s5, a.blank_lines, c.blank_lines);
    let s7 = push_if(s6, a.unique, c.unique_words);
    push_if(s7, a.pattern is Some, c.pattern)
}

/// `s` with `v` appended when `on` holds.
pub open spec fn push_if(s: Seq<usize>, on: bool, v: usize) -> Seq<usize> {
    if on {
        s.push(v)
    } else {
        s
    }
}

impl Counts {
    /// Counts that are all 0.
    pub fn new() -> (res: Counts)
        ensures
            is_zero(&res),
    {
        Counts {
            lines: 0,
            words: 0,
            bytes: 0,
            chars: 0,
            max_line_length: 0,
            blank_lines: 0,
            pattern: 0,
            unique_words: 0,
            statistics: None,
            histogram: None,
        }
    }

    /// Whether `other` can be added to these counts without overflow.
    pub fn can_add(&self, other: &Counts) -> (res: bool)
        ensures
            res == addable(self, other),
    {
        self.lines <= usize::MAX - other.lines && self.words <= usize::MAX - other.words
            && self.bytes <= usize::MAX - other.bytes && self.chars <= usize::MAX - other.chars
            && self.blank_lines <= usize::MAX - other.blank_lines && self.pattern <= usize::MAX
            - other.pattern && self.unique_words <= usize::MAX - other.unique_words
    }

    /// Adds `other` to these counts: sums, but the longest line is the
    /// longer of the two. Statistics and histograms are not added.
    pub fn add(&mut self, other: &Counts)
        requires
            addable(old(self), other),
        ensures
            final(self).lines == old(self).lines + other.lines,
            final(self).words == old(self).words + other.words,
            final(self).bytes == old(self).bytes + other.bytes,
            final(self).chars == old(self).chars + other.chars,
            final(self).max_line_length == larger(old(self).max_line_length, other.max_line_length),
            final(self).max_line_length >= old(self).max_line_length,
            final(self).max_line_length >= other.max_line_length,
            final(self).max_line_length == old(self).max_line_length || final(self).max_line_length
                == other.max_line_length,
            final(self).blank_lines == old(self).blank_lines + other.blank_lines,
            final(self).pattern == old(self).pattern + other.pattern,
            final(self).unique_words == old(self).unique_words + other.unique_words,
            final(self).statistics == old(self).statistics,
            final(self).histogram == old(self).histogram,
    {
        self.lines = self.lines + other.lines;
        self.words = self.words + other.words;
        self.bytes = self.bytes + other.bytes;
        self.chars = self.chars + other.chars;
        if other.max_line_length > self.max_line_length {
            self.max_line_length = other.max_line_length;
        }
        self.blank_lines = self.blank_lines + other.blank_lines;
        self.pattern = self.pattern + other.pattern;
        self.unique_words = self.unique_words + other.unique_words;
    }

    /// The counts that `args` selects, in the order of output.
    pub fn get_values(&self, args: &Args) -> (res: Vec<usize>)
        ensures
            res@ == selected_values(self, args),
    {
        let mut values: Vec<usize> = Vec::new();
        if args.lines {
            values.push(self.lines);
        }
        if args.words {
            values.push(self.words);
        }
        if args.chars {
            values.push(self.chars);
        }
        if args.bytes {
            values.push(self.bytes);
        }
        if args.max_line_length {
            values.push(self.max_line_length);
        }
        if args.blank_lines {
            values.push(self.blank_lines);
        }
        if args.unique {
            values.push(self.unique_words);
        }
        if args.pattern.is_some() {
            values.push(self.pattern);
        }
        values
    }
}

/// The buffer that the counts are taken of: `data` decoded when an encoding
/// is given, then filtered to its code or its prose when asked.
pub open spec fn processed(data: Seq<u8>, args: &Args) -> Seq<u8> {
    let decoded = match args.encoding {
        Some(e) => decode_result(data, Some(encode_utf8(e@))),
        None => data,
    };
    if args.code {
        code_filtered(decoded)
    } else if args.markdown {
        markdown_filtered(decoded)
    } else {
        decoded
    }
}

/// Whether `c` holds the counts of `s` that `args` asks for, the others 0.
/// Statistics and the total line and word counts that they print with are
/// taken under `stats`, a histogram under `histogram`.
pub open spec fn counts_of(c: &Counts, s: Seq<u8>, args: &Args) -> bool {
    &&& c.lines == (if args.lines || args.stats { byte_count(s, NEWLINE) } else { 0 })
    &&& c.words == (if args.words || args.stats { word_count(s) } else { 0 })
    &&& c.chars == (if args.chars { char_count(s) } else { 0 })
    &&& c.bytes == (if args.bytes || args.stats { s.len() } else { 0 })
    &&& c.max_line_length == (if args.max_line_length {
        cap(max_width(lines(s)))
    } else {
        0
    })
    &&& c.blank_lines == (if args.blank_lines { blank_line_count(s) } else { 0 })
    &&& c.unique_words == (if args.unique { unique_word_count(s) } else { 0 })
    &&& c.pattern == match args.pattern {
        Some(p) => pattern_count(s, encode_utf8(p@)),
        None => 0,
    }
    &&& (c.statistics is Some <==> args.stats)
    &&& (c.statistics matches Some(st) ==> describes(st, s))
    &&& (c.histogram is Some <==> args.histogram)
    &&& (c.histogram matches Some(h) ==> tallies(h@, lines(s)))
}

/// Takes the counts of `data` that `args` asks for; the others stay 0.
/// Statistics and the total line and word counts that they print with are
/// taken under `stats`, a histogram under `histogram`. The input is copied
/// only when it is decoded or filtered.
pub fn process_data(data: &[u8], args: &Args) -> (res: Counts)
    ensures
        counts_of(&res, processed(data@, args), args),
{
    let decode = match &args.encoding {
        Some(e) => encoding_decodes(e.as_str()),
        None => false,
    };
    if !decode {
        assert(processed(data@, args) == if args.code {
            code_filtered(data@)
        } else if args.markdown {
            markdown_filtered(data@)
        } else {
            data@
        });
        if args.code {
            let f = filter_code_comments(data);
            return count_buffer(f.as_slice(), args);
        } else if args.markdown {
            let f = filter_markdown_code(data);
            return count_buffer(f.as_slice(), args);
        } else {
            return count_buffer(data, args);
        }
    }
    let decoded: Vec<u8> = match &args.encoding {
        Some(e) => decode_to_utf8(data, Some(e.as_str())),
        None => vstd::slice::slice_to_vec(data),
    };
    if args.code {
        let f = filter_code_comments(decoded.as_slice());
        count_buffer(f.as_slice(), args)
    } else if args.markdown {
        let f = filter_markdown_code(decoded.as_slice());
        count_buffer(f.as_slice(), args)
    } else {
        count_buffer(decoded.as_slice(), args)
    }
}

/// The counts of `data` that `args` asks for, as `process_data` takes them,
/// or `None` when `data` looks binary and is skipped.
pub fn process_unless_binary(data: &[u8], args: &Args) -> (res: Option<Counts>)
    ensures
        res is None <==> looks_binary(data@),
        res matches Some(c) ==> counts_of(&c, processed(data@, args), args),
{
    if is_binary(data) {
        None
    } else {
        Some(process_data(data, args))
    }
}

/// Takes the counts of `b` that `args` asks for; the others stay 0.
fn count_buffer(b: &[u8], args: &Args) -> (res: Counts)
    ensures
        counts_of(&res, b@, args),
{
    let mut counts = Counts::new();
    if args.lines || args.stats {
        counts.lines = count_lines(b);
    }
    if args.words || args.stats {
        counts.words = count_all_words(b);
    }
    if args.chars {
        counts.chars = count_chars(b);
    }
    if args.bytes || args.stats {
        counts.bytes = b.len();
    }
    if args.max_line_length {
        counts.max_line_length = max_line_length(b);
    }
    if args.blank_lines {
        counts.blank_lines = count_blank_lines(b);
    }
    if args.unique {
        counts.unique_words = count_unique_words(b);
    }
    match &args.pattern {
        Some(p) => {
            counts.pattern = count_pattern(b, p.as_str().as_bytes());
        },
        None => {},
    }
    if args.stats {
        counts.statistics = Some(calculate_statistics(b));
    }
    if args.histogram {
        counts.histogram = Some(generate_histogram(b));
    }
    counts
}

} // verus!
