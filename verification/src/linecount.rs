//! Counts taken line by line: blank lines, the widest line, line lengths and
//! their histogram.

use vstd::prelude::*;
use vstd::utf8::encode_utf8;
use crate::count::{is_cut, CHUNK_SIZE, PARALLEL_THRESHOLD};
use crate::parallel::map_pieces;
use crate::lines::{
    at_line_start, find_line_boundaries, lemma_lines_concat, lemma_lines_step, lemma_next_newline,
    line_content, lines, next_line_end, next_newline, CARRIAGE_RETURN,
};
use crate::width::{cap, display_width, line_width};

verus! {

/// Whether `b` is ASCII whitespace: space, tab, line feed, form feed or
/// carriage return.
pub open spec fn is_ascii_space(b: u8) -> bool {
    b == 0x20 || b == 0x09 || b == 0x0a || b == 0x0c || b == 0x0d
}

/// Whether a line holds nothing but ASCII whitespace (an empty line does).
pub open spec fn is_blank(line: Seq<u8>) -> bool {
    forall|k: int| 0 <= k < line.len() ==> is_ascii_space(#[trigger] line[k])
}

/// Number of blank lines of `s`.
pub open spec fn blank_line_count(s: Seq<u8>) -> nat {
    lines(s).filter(|l: Seq<u8>| is_blank(l)).len()
}

/// The widest display width among the contents of `ls` (0 when there are no
/// lines).
pub open spec fn max_width(ls: Seq<Seq<u8>>) -> int
    decreases ls.len(),
{
    if ls.len() == 0 {
        0
    } else {
        let rest = max_width(ls.drop_last());
        let w = display_width(line_content(ls.last()));
        if rest >= w {
            rest
        } else {
            w
        }
    }
}

/// Splitting a prefix of `s` at a line start splits its lines.
pub proof fn lemma_prefix_lines(s: Seq<u8>, lo: int, hi: int)
    requires
        0 <= lo <= hi <= s.len(),
        at_line_start(s, lo),
    ensures
        lines(s.subrange(0, hi)) == lines(s.subrange(0, lo)) + lines(s.subrange(lo, hi)),
{
    let a = s.subrange(0, lo);
    let b = s.subrange(lo, hi);
    assert(a + b =~= s.subrange(0, hi));
    if lo > 0 {
        assert(a.last() == s[lo - 1]);
    }
    lemma_lines_concat(a, b);
}

/// One step of a walk over the lines of `data`: the line that starts at `pos`
/// and where the walk resumes.
pub(crate) proof fn lemma_walk_step(s: Seq<u8>, pos: int)
    requires
        0 <= pos < s.len(),
        at_line_start(s, pos),
    ensures
        ({
            let e = next_newline(s, pos);
            let next = if e < s.len() {
                e + 1
            } else {
                s.len() as int
            };
            &&& pos <= e <= s.len()
            &&& pos < next <= s.len()
            &&& next < s.len() ==> at_line_start(s, next)
            &&& lines(s.subrange(0, next)) == lines(s.subrange(0, pos)).push(s.subrange(pos, e))
        }),
{
    lemma_next_newline(s, pos);
    lemma_lines_step(s, pos);
    let e = next_newline(s, pos);
    if e == s.len() {
        assert(s.subrange(0, s.len() as int) =~= s);
    }
}

/// Whether every byte of `data[lo..hi]` is ASCII whitespace.
fn all_ascii_space(data: &[u8], lo: usize, hi: usize) -> (res: bool)
    requires
        lo <= hi <= data@.len(),
    ensures
        res == is_blank(data@.subrange(lo as int, hi as int)),
{
    let mut k = lo;
    while k < hi
        invariant
            lo <= k <= hi <= data@.len(),
            forall|j: int| lo <= j < k ==> is_ascii_space(#[trigger] data@[j]),
        decreases hi - k,
    {
        let b = data[k];
        if !(b == 0x20 || b == 0x09 || b == 0x0a || b == 0x0c || b == 0x0d) {
            assert(data@.subrange(lo as int, hi as int)[k - lo] == b);
            return false;
        }
        k = k + 1;
    }
    assert forall|j: int| 0 <= j < hi - lo implies is_ascii_space(
        #[trigger] data@.subrange(lo as int, hi as int)[j],
    ) by {
        assert(data@.subrange(lo as int, hi as int)[j] == data@[lo + j]);
    }
    true
}

/// Blank lines of `data`, walked in one pass.
fn count_blank_lines_chunk(data: &[u8]) -> (res: usize)
    ensures
        res == blank_line_count(data@),
{
    let n = data.len();
    let mut count: usize = 0;
    let mut pos: usize = 0;
    let ghost blank = |l: Seq<u8>| is_blank(l);
    assert(lines(data@.subrange(0, 0)) =~= Seq::<Seq<u8>>::empty());
    while pos < n
        invariant
            n == data@.len(),
            pos <= n,
            pos < n ==> at_line_start(data@, pos as int),
            count <= pos,
            blank == (|l: Seq<u8>| is_blank(l)),
            count == lines(data@.subrange(0, pos as int)).filter(blank).len(),
        decreases n - pos,
    {
        let e = next_line_end(data, pos);
        proof {
            lemma_walk_step(data@, pos as int);
            lines(data@.subrange(0, pos as int)).lemma_filter_len_push(
                blank,
                data@.subrange(pos as int, e as int),
            );
        }
        if all_ascii_space(data, pos, e) {
            count = count + 1;
        }
        pos = if e < n {
            e + 1
        } else {
            n
        };
    }
    assert(data@.subrange(0, n as int) =~= data@);
    count
}

/// Number of blank lines in `data`: lines holding only ASCII whitespace.
pub fn count_blank_lines(data: &[u8]) -> (res: usize)
    ensures
        res == blank_line_count(data@),
{
    if data.len() == 0 {
        return 0;
    }
    if data.len() < PARALLEL_THRESHOLD || data.len() > usize::MAX - CHUNK_SIZE {
        return count_blank_lines_chunk(data);
    }
    let bounds = find_line_boundaries(data, CHUNK_SIZE);
    let piece_blanks = |lo: usize, hi: usize| -> (c: usize)
        requires
            lo <= hi <= data@.len(),
        ensures
            c == blank_line_count(data@.subrange(lo as int, hi as int)),
        {
            let piece = &data[lo..hi];
            assert(piece@ =~= data@.subrange(lo as int, hi as int));
            count_blank_lines_chunk(piece)
        };
    let counts = map_pieces(&bounds, piece_blanks);
    let ghost blank = |l: Seq<u8>| is_blank(l);
    let mut total: usize = 0;
    let mut j: usize = 0;
    let m = bounds.len();
    assert(lines(data@.subrange(0, 0)) =~= Seq::<Seq<u8>>::empty());
    while j + 1 < m
        invariant
            m == bounds@.len(),
            is_cut(bounds@, data@.len() as int),
            forall|k: int| 0 <= k < bounds@.len() - 1 ==> at_line_start(data@, #[trigger] bounds@[k] as int),
            j < m,
            blank == (|l: Seq<u8>| is_blank(l)),
            counts@.len() == m - 1,
            forall|k: int| 0 <= k < m - 1 ==> #[trigger] counts@[k] == blank_line_count(data@.subrange(bounds@[k] as int, bounds@[k + 1] as int)),
            total <= bounds@[j as int],
            total == lines(data@.subrange(0, bounds@[j as int] as int)).filter(blank).len(),
        decreases m - j,
    {
        let lo = bounds[j];
        let hi = bounds[j + 1];
        assert(lo < hi);
        assert(hi <= data@.len()) by {
            if j + 1 < m - 1 {
                assert(bounds@[j + 1] < bounds@[m - 1]);
            }
        }
        let c = counts[j];
        proof {
            assert(at_line_start(data@, lo as int));
            lemma_prefix_lines(data@, lo as int, hi as int);
            Seq::filter_distributes_over_add(
                lines(data@.subrange(0, lo as int)),
                lines(data@.subrange(lo as int, hi as int)),
                blank,
            );
            lemma_blank_count_le(data@.subrange(lo as int, hi as int));
        }
        total = total + c;
        j = j + 1;
    }
    assert(data@.subrange(0, data@.len() as int) =~= data@);
    total
}

pub(crate) proof fn lemma_lines_len_le(s: Seq<u8>)
    ensures
        lines(s).len() <= s.len(),
    decreases s.len(),
{
    if s.len() > 0 {
        let pos: int = 0;
        lemma_walk_step(s, 0);
        lemma_next_newline(s, 0);
        let e = next_newline(s, 0);
        if e < s.len() {
            let rest = s.subrange(e + 1, s.len() as int);
            lemma_prefix_lines(s, e + 1, s.len() as int);
            assert(s.subrange(0, s.len() as int) =~= s);
            lemma_lines_len_le(rest);
            assert(lines(s.subrange(0, e + 1)).len() == 1) by {
                assert(lines(s.subrange(0, 0)) =~= Seq::<Seq<u8>>::empty());
            }
        } else {
            assert(lines(s.subrange(0, 0)) =~= Seq::<Seq<u8>>::empty());
        }
    }
}

proof fn lemma_blank_count_le(s: Seq<u8>)
    ensures
        blank_line_count(s) <= s.len(),
{
    lines(s).lemma_filter_len(|l: Seq<u8>| is_blank(l));
    lemma_lines_len_le(s);
}


proof fn lemma_max_width_push(ls: Seq<Seq<u8>>, l: Seq<u8>)
    ensures
        max_width(ls.push(l)) == (if max_width(ls) >= display_width(line_content(l)) {
            max_width(ls)
        } else {
            display_width(line_content(l))
        }),
{
    assert(ls.push(l).drop_last() =~= ls);
}

/// The widest line of a concatenation of line lists is the wider of the two
/// widest lines.
pub proof fn lemma_max_width_concat(x: Seq<Seq<u8>>, y: Seq<Seq<u8>>)
    ensures
        max_width(x + y) == (if max_width(x) >= max_width(y) {
            max_width(x)
        } else {
            max_width(y)
        }),
    decreases y.len(),
{
    if y.len() == 0 {
        assert(x + y =~= x);
        lemma_max_width_nonneg(x);
    } else {
        lemma_max_width_concat(x, y.drop_last());
        assert((x + y).drop_last() =~= x + y.drop_last());
    }
}

proof fn lemma_max_width_nonneg(ls: Seq<Seq<u8>>)
    ensures
        max_width(ls) >= 0,
    decreases ls.len(),
{
    if ls.len() > 0 {
        lemma_max_width_nonneg(ls.drop_last());
    }
}

/// End of the content of the line `data[pos..e]`: a carriage return that ends
/// it is left out.
pub(crate) fn content_end(data: &[u8], pos: usize, e: usize) -> (res: usize)
    requires
        pos <= e <= data@.len(),
    ensures
        pos <= res <= e,
        data@.subrange(pos as int, res as int) == line_content(data@.subrange(pos as int, e as int)),
{
    if e > pos && data[e - 1] == CARRIAGE_RETURN {
        assert(data@.subrange(pos as int, e as int).last() == data@[e - 1]);
        assert(data@.subrange(pos as int, e - 1) =~= data@.subrange(pos as int, e as int).drop_last());
        e - 1
    } else {
        e
    }
}

/// The widest line of `data`, walked in one pass.
fn max_line_length_chunk(data: &[u8]) -> (res: usize)
    ensures
        res == cap(max_width(lines(data@))),
{
    let n = data.len();
    let mut best: usize = 0;
    let mut pos: usize = 0;
    assert(lines(data@.subrange(0, 0)) =~= Seq::<Seq<u8>>::empty());
    while pos < n
        invariant
            n == data@.len(),
            pos <= n,
            pos < n ==> at_line_start(data@, pos as int),
            best == cap(max_width(lines(data@.subrange(0, pos as int)))),
        decreases n - pos,
    {
        let e = next_line_end(data, pos);
        proof {
            lemma_walk_step(data@, pos as int);
            lemma_max_width_push(lines(data@.subrange(0, pos as int)), data@.subrange(pos as int, e as int));
        }
        let end = content_end(data, pos, e);
        let line = &data[pos..end];
        let w = line_width(line);
        proof {
            assert(data@.subrange(pos as int, end as int) =~= line@);
        }
        if w > best {
            best = w;
        }
        pos = if e < n {
            e + 1
        } else {
            n
        };
    }
    assert(data@.subrange(0, n as int) =~= data@);
    best
}

/// Display width of the widest line of `data`, as `wc -L` reports it: tabs
/// move to the next multiple of 8, East Asian wide characters take two
/// columns, control and combining characters none, a carriage return or form
/// feed sends the cursor back to column 0, and a carriage return that ends a
/// line is not part of it. A width beyond `usize::MAX` reads as `usize::MAX`.
pub fn max_line_length(data: &[u8]) -> (res: usize)
    ensures
        res == cap(max_width(lines(data@))),
{
    if data.len() == 0 {
        return 0;
    }
    if data.len() < PARALLEL_THRESHOLD || data.len() > usize::MAX - CHUNK_SIZE {
        return max_line_length_chunk(data);
    }
    let bounds = find_line_boundaries(data, CHUNK_SIZE);
    let piece_widest = |lo: usize, hi: usize| -> (w: usize)
        requires
            lo <= hi <= data@.len(),
        ensures
            w == cap(max_width(lines(data@.subrange(lo as int, hi as int)))),
        {
            let piece = &data[lo..hi];
            assert(piece@ =~= data@.subrange(lo as int, hi as int));
            max_line_length_chunk(piece)
        };
    let widths = map_pieces(&bounds, piece_widest);
    let mut best: usize = 0;
    let mut j: usize = 0;
    let m = bounds.len();
    assert(lines(data@.subrange(0, 0)) =~= Seq::<Seq<u8>>::empty());
    while j + 1 < m
        invariant
            m == bounds@.len(),
            is_cut(bounds@, data@.len() as int),
            forall|k: int| 0 <= k < bounds@.len() - 1 ==> at_line_start(data@, #[trigger] bounds@[k] as int),
            j < m,
            widths@.len() == m - 1,
            forall|k: int| 0 <= k < m - 1 ==> #[trigger] widths@[k] == cap(max_width(lines(data@.subrange(bounds@[k] as int, bounds@[k + 1] as int)))),
            best == cap(max_width(lines(data@.subrange(0, bounds@[j as int] as int)))),
        decreases m - j,
    {
        let lo = bounds[j];
        let hi = bounds[j + 1];
        assert(lo < hi);
        assert(hi <= data@.len()) by {
            if j + 1 < m - 1 {
                assert(bounds@[j + 1] < bounds@[m - 1]);
            }
        }
        let w = widths[j];
        proof {
            assert(at_line_start(data@, lo as int));
            lemma_prefix_lines(data@, lo as int, hi as int);
            lemma_max_width_concat(
                lines(data@.subrange(0, lo as int)),
                lines(data@.subrange(lo as int, hi as int)),
            );
        }
        if w > best {
            best = w;
        }
        j = j + 1;
    }
    assert(data@.subrange(0, data@.len() as int) =~= data@);
    best
}


/// Blank lines and the widest line are counted piecewise: when the first part
/// of a buffer is empty or ends with a newline, the blank lines of the whole
/// are those of the parts together, and its widest line is the wider of theirs.
pub proof fn lemma_line_counts_concat(a: Seq<u8>, b: Seq<u8>)
    requires
        a.len() > 0 ==> a.last() == crate::count::NEWLINE,
    ensures
        blank_line_count(a + b) == blank_line_count(a) + blank_line_count(b),
        max_width(lines(a + b)) == (if max_width(lines(a)) >= max_width(lines(b)) {
            max_width(lines(a))
        } else {
            max_width(lines(b))
        }),
{
    lemma_lines_concat(a, b);
    Seq::filter_distributes_over_add(lines(a), lines(b), |l: Seq<u8>| is_blank(l));
    lemma_max_width_concat(lines(a), lines(b));
}

/// `wc -L` of a line of Hangul syllables: each syllable is East Asian wide,
/// so a line of `n` of them is `2 * n` columns wide.
pub proof fn lemma_hangul_line_length(t: Seq<char>)
    requires
        forall|k: int| 0 <= k < t.len() ==> crate::width::is_hangul_syllable(#[trigger] t[k]),
        2 * t.len() <= usize::MAX,
    ensures
        cap(max_width(lines(encode_utf8(t).push(crate::count::NEWLINE)))) == 2 * t.len(),
{
    let e = encode_utf8(t);
    assert(('\n' as u32) == 10);
    assert(('\r' as u32) == 13);
    assert forall|k: int| 0 <= k < t.len() implies t[k] != '\n' && t[k] != '\r' by {
        assert(crate::width::is_hangul_syllable(t[k]));
    }
    crate::filter::lemma_encode_avoids(t, '\n');
    crate::filter::lemma_encode_avoids(t, '\r');
    crate::filter::lemma_single_line(e);
    if e.len() > 0 {
        assert(e.last() == e[e.len() - 1]);
    }
    assert(line_content(e) == e);
    crate::width::lemma_hangul_width(t);
    let one = seq![e];
    assert(one.drop_last() =~= Seq::<Seq<u8>>::empty());
    assert(one.last() == e);
    assert(max_width(one.drop_last()) == 0);
    assert(display_width(line_content(one.last())) == 2 * t.len());
    assert(max_width(one) == display_width(e));
}

} // verus!
