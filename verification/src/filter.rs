//! Filters that keep the prose or the code of a text: one drops the comments
//! of source code, the other the code of Markdown.
//!
//! Both read the input as text split into lines the way `str::lines` splits
//! it; input that is not well-formed UTF-8 is passed through unchanged.

use vstd::prelude::*;
use vstd::utf8::{decode_utf8, encode_scalar, encode_utf8, valid_utf8};
use crate::codec::{decode_chars, encode_chars, lemma_encode_concat, lemma_encode_scalar_bytes};
use crate::count::NEWLINE;
use crate::linecount::{blank_line_count, is_ascii_space, is_blank, lemma_line_counts_concat};
use crate::lines::{lemma_next_newline, lines, lines_from, next_newline};
use crate::words::{is_unicode_space, is_valid_utf8, unicode_space};

verus! {

/// Whether `c` is whitespace in Unicode's sense.
pub open spec fn is_space_char(c: char) -> bool {
    is_unicode_space(c as u32)
}

/// Index of the first line feed at or after `i` in `t`, or the length of `t`.
pub open spec fn next_lf(t: Seq<char>, i: int) -> int
    decreases t.len() - i,
{
    if i < 0 || i >= t.len() {
        t.len() as int
    } else if t[i] == '\n' {
        i
    } else {
        next_lf(t, i + 1)
    }
}

/// The next line feed lies between `i` and the end, and none comes before it.
pub proof fn lemma_next_lf(t: Seq<char>, i: int)
    requires
        0 <= i <= t.len(),
    ensures
        i <= next_lf(t, i) <= t.len(),
        next_lf(t, i) < t.len() ==> t[next_lf(t, i)] == '\n',
        forall|k: int| i <= k < next_lf(t, i) ==> t[k] != '\n',
    decreases t.len() - i,
{
    if i < t.len() && t[i] != '\n' {
        lemma_next_lf(t, i + 1);
    }
}

/// A line that a line feed ended, without a carriage return just before it.
pub open spec fn strip_cr(l: Seq<char>) -> Seq<char> {
    if l.len() > 0 && l.last() == '\r' {
        l.drop_last()
    } else {
        l
    }
}

/// The lines of `t` from `i` on, as `str::lines` gives them: split at line
/// feeds, a carriage return before a line feed dropped, and a last piece kept
/// when it is not empty.
pub open spec fn text_lines_from(t: Seq<char>, i: int) -> Seq<Seq<char>>
    decreases t.len() - i,
{
    if i < 0 || i >= t.len() {
        Seq::empty()
    } else {
        proof {
            lemma_next_lf(t, i);
        }
        if next_lf(t, i) < t.len() {
            seq![strip_cr(t.subrange(i, next_lf(t, i)))] + text_lines_from(t, next_lf(t, i) + 1)
        } else {
            seq![t.subrange(i, t.len() as int)]
        }
    }
}

/// The lines of `t`.
pub open spec fn text_lines(t: Seq<char>) -> Seq<Seq<char>> {
    text_lines_from(t, 0)
}

/// Index of the first character at or after `i` of `l` that is not
/// whitespace, or the length of `l`.
pub open spec fn skip_space(l: Seq<char>, i: int) -> int
    decreases l.len() - i,
{
    if i < 0 || i >= l.len() {
        l.len() as int
    } else if is_space_char(l[i]) {
        skip_space(l, i + 1)
    } else {
        i
    }
}

/// Whether a Markdown line opens or closes a fenced code block: once leading
/// whitespace is trimmed, it starts with three backticks.
pub open spec fn is_fence(l: Seq<char>) -> bool {
    let k = skip_space(l, 0);
    k + 3 <= l.len() && l[k] == '`' && l[k + 1] == '`' && l[k + 2] == '`'
}

/// What is left of `l` from `i` on once inline code spans are dropped: each
/// backtick switches between text and code, and neither backticks nor code
/// are kept.
pub open spec fn inline_from(l: Seq<char>, i: int, in_code: bool) -> Seq<char>
    decreases l.len() - i,
{
    if i < 0 || i >= l.len() {
        Seq::empty()
    } else if l[i] == '`' {
        inline_from(l, i + 1, !in_code)
    } else if !in_code {
        seq![l[i]] + inline_from(l, i + 1, in_code)
    } else {
        inline_from(l, i + 1, in_code)
    }
}

/// A Markdown line without its inline code.
pub open spec fn strip_inline_code(l: Seq<char>) -> Seq<char> {
    inline_from(l, 0, false)
}

/// The prose of the Markdown lines `ls`: fence lines and the lines between
/// them dropped, inline code dropped from the other lines, each of which ends
/// with a line feed. `in_block` tells whether a code block is open.
pub open spec fn markdown_lines(ls: Seq<Seq<char>>, in_block: bool) -> Seq<char>
    decreases ls.len(),
{
    if ls.len() == 0 {
        Seq::empty()
    } else if is_fence(ls[0]) {
        markdown_lines(ls.drop_first(), !in_block)
    } else if in_block {
        markdown_lines(ls.drop_first(), in_block)
    } else {
        strip_inline_code(ls[0]) + seq!['\n'] + markdown_lines(ls.drop_first(), in_block)
    }
}

/// The prose of the Markdown text `t`.
pub open spec fn markdown_text(t: Seq<char>) -> Seq<char> {
    markdown_lines(text_lines(t), false)
}

/// The bytes that the Markdown filter gives for `s`: the UTF-8 encoding of
/// the prose of its text, or `s` itself when it is not well-formed UTF-8.
pub open spec fn markdown_filtered(s: Seq<u8>) -> Seq<u8> {
    if valid_utf8(s) {
        encode_utf8(markdown_text(decode_utf8(s)))
    } else {
        s
    }
}

/// End of the line of `t` that starts at `pos`: the next line feed, or the end.
fn find_lf(t: &Vec<char>, pos: usize) -> (res: usize)
    requires
        pos <= t@.len(),
    ensures
        res == next_lf(t@, pos as int),
{
    let mut k = pos;
    while k < t.len() && t[k] != '\n'
        invariant
            pos <= k <= t@.len(),
            forall|j: int| pos <= j < k ==> t@[j] != '\n',
        decreases t@.len() - k,
    {
        k = k + 1;
    }
    proof {
        lemma_next_lf(t@, pos as int);
        let e = next_lf(t@, pos as int);
        if e < k {
            assert(t@[e] == '\n');
        }
        if k < e {
            assert(t@[k as int] != '\n');
        }
    }
    k
}

/// The bounds `[lo, hi)` in `t` of the line that starts at `pos`, and where
/// the next line starts.
fn line_bounds(t: &Vec<char>, pos: usize) -> (res: (usize, usize, usize))
    requires
        pos < t@.len(),
    ensures
        pos == res.0 <= res.1 <= t@.len(),
        pos < res.2 <= t@.len(),
        text_lines_from(t@, pos as int) == seq![t@.subrange(res.0 as int, res.1 as int)]
            + text_lines_from(t@, res.2 as int),
{
    let e = find_lf(t, pos);
    proof {
        lemma_next_lf(t@, pos as int);
    }
    if e < t.len() {
        let hi = if e > pos && t[e - 1] == '\r' {
            e - 1
        } else {
            e
        };
        proof {
            let l = t@.subrange(pos as int, e as int);
            if e > pos && t@[e - 1] == '\r' {
                assert(l.last() == t@[e - 1]);
                assert(l.drop_last() =~= t@.subrange(pos as int, hi as int));
            }
        }
        (pos, hi, e + 1)
    } else {
        proof {
            assert(text_lines_from(t@, e as int) =~= Seq::<Seq<char>>::empty());
            assert(seq![t@.subrange(pos as int, e as int)] + Seq::<Seq<char>>::empty() =~= seq![t@.subrange(pos as int, e as int)]);
        }
        (pos, e, e)
    }
}

/// Whether the line `t[lo..hi]` is a code fence.
fn fence_at(t: &Vec<char>, lo: usize, hi: usize) -> (res: bool)
    requires
        lo <= hi <= t@.len(),
    ensures
        res == is_fence(t@.subrange(lo as int, hi as int)),
{
    let ghost l = t@.subrange(lo as int, hi as int);
    let mut k = lo;
    while k < hi && unicode_space(t[k] as u32)
        invariant
            lo <= k <= hi <= t@.len(),
            l == t@.subrange(lo as int, hi as int),
            skip_space(l, k - lo) == skip_space(l, 0),
        decreases hi - k,
    {
        assert(l[k - lo] == t@[k as int]);
        k = k + 1;
    }
    if k < hi {
        assert(l[k - lo] == t@[k as int]);
    }
    if hi - k >= 3 {
        assert(l[k - lo + 1] == t@[k + 1]);
        assert(l[k - lo + 2] == t@[k + 2]);
        t[k] == '`' && t[k + 1] == '`' && t[k + 2] == '`'
    } else {
        false
    }
}

/// Appends `t[lo..hi]` without its inline code to `out`.
fn push_without_inline_code(t: &Vec<char>, lo: usize, hi: usize, out: &mut Vec<char>)
    requires
        lo <= hi <= t@.len(),
    ensures
        final(out)@ == old(out)@ + strip_inline_code(t@.subrange(lo as int, hi as int)),
{
    let ghost l = t@.subrange(lo as int, hi as int);
    let mut in_code = false;
    let mut k = lo;
    assert(old(out)@ + Seq::<char>::empty() =~= old(out)@);
    while k < hi
        invariant
            lo <= k <= hi <= t@.len(),
            l == t@.subrange(lo as int, hi as int),
            old(out)@ + strip_inline_code(l) == out@ + inline_from(l, k - lo, in_code),
        decreases hi - k,
    {
        let c = t[k];
        assert(l[k - lo] == c);
        if c == '`' {
            in_code = !in_code;
        } else if !in_code {
            let ghost before = out@;
            out.push(c);
            assert(before + (seq![c] + inline_from(l, k - lo + 1, in_code)) =~= out@ + inline_from(l, k - lo + 1, in_code));
        }
        k = k + 1;
    }
    assert(out@ + Seq::<char>::empty() =~= out@);
}

/// The prose of Markdown `data`: fenced code blocks (fence lines included)
/// dropped, inline code spans dropped, every kept line ended by a line feed.
/// Input that is not well-formed UTF-8 comes back unchanged.
pub fn filter_markdown_code(data: &[u8]) -> (res: Vec<u8>)
    ensures
        res@ == markdown_filtered(data@),
{
    if !is_valid_utf8(data) {
        return vstd::slice::slice_to_vec(data);
    }
    let t = decode_chars(data);
    let n = t.len();
    let mut out: Vec<char> = Vec::new();
    let mut in_block = false;
    let mut pos: usize = 0;
    assert(Seq::<char>::empty() + markdown_text(t@) =~= markdown_text(t@));
    while pos < n
        invariant
            n == t@.len(),
            pos <= n,
            out@ + markdown_lines(text_lines_from(t@, pos as int), in_block) == markdown_text(t@),
        decreases n - pos,
    {
        let (lo, hi, next) = line_bounds(&t, pos);
        let ghost ls = text_lines_from(t@, pos as int);
        proof {
            assert(ls[0] == t@.subrange(lo as int, hi as int));
            assert(ls.drop_first() =~= text_lines_from(t@, next as int));
        }
        if fence_at(&t, lo, hi) {
            in_block = !in_block;
        } else if !in_block {
            let ghost before = out@;
            push_without_inline_code(&t, lo, hi, &mut out);
            out.push('\n');
            proof {
                let l = t@.subrange(lo as int, hi as int);
                assert(before + (strip_inline_code(l) + seq!['\n'] + markdown_lines(ls.drop_first(), in_block)) =~= out@ + markdown_lines(ls.drop_first(), in_block));
            }
        }
        pos = next;
    }
    let mut res: Vec<u8> = Vec::new();
    encode_chars(&out, &mut res);
    proof {
        assert(text_lines_from(t@, pos as int) =~= Seq::<Seq<char>>::empty());
        assert(out@ + Seq::<char>::empty() =~= out@);
        assert(Seq::<u8>::empty() + encode_utf8(out@) =~= encode_utf8(out@));
    }
    res
}


/// Where the reading of source code stands between two lines: in code, in a
/// block comment, or in a docstring opened by three double or three single
/// quotes.
#[derive(Clone, Copy, PartialEq, Eq, Structural)]
pub enum CommentState {
    Code,
    InBlock,
    InDocDouble,
    InDocSingle,
}

/// Whether the marker `m` occurs in `l` at `p`.
pub open spec fn matches_at(l: Seq<char>, p: int, m: Seq<char>) -> bool {
    0 <= p && p + m.len() <= l.len() && l.subrange(p, p + m.len()) == m
}

/// The first occurrence of `m` in `l` at or after `p`, or -1.
pub open spec fn find_from(l: Seq<char>, p: int, m: Seq<char>) -> int
    decreases l.len() - p,
{
    if m.len() == 0 || p < 0 || p + m.len() > l.len() {
        -1
    } else if matches_at(l, p, m) {
        p
    } else {
        find_from(l, p + 1, m)
    }
}

/// The first occurrence of the comment marker `m` in `l` at or after `p` that
/// starts the text being read (at `base`) or follows whitespace, or -1.
pub open spec fn find_marker(l: Seq<char>, base: int, p: int, m: Seq<char>) -> int
    decreases l.len() - p,
{
    if m.len() == 0 || p < 0 || p + m.len() > l.len() {
        -1
    } else if matches_at(l, p, m) && (p == base || is_space_char(l[p - 1])) {
        p
    } else {
        find_marker(l, base, p + 1, m)
    }
}

/// The line comment marker `//`.
pub open spec fn line_slash() -> Seq<char> {
    seq!['/', '/']
}

/// The line comment marker `#`.
pub open spec fn line_hash() -> Seq<char> {
    seq!['#']
}

/// The line comment marker `--`.
pub open spec fn line_dash() -> Seq<char> {
    seq!['-', '-']
}

/// The marker that opens a block comment, `/*`.
pub open spec fn block_open() -> Seq<char> {
    seq!['/', '*']
}

/// The marker that closes a block comment, `*/`.
pub open spec fn block_close() -> Seq<char> {
    seq!['*', '/']
}

/// The docstring marker of three double quotes.
pub open spec fn doc_double() -> Seq<char> {
    seq!['"', '"', '"']
}

/// The docstring marker of three single quotes.
pub open spec fn doc_single() -> Seq<char> {
    seq!['\'', '\'', '\'']
}

/// Of two candidate markers, given as (position or -1, marker), the one that
/// comes first; on a tie, the first candidate.
pub open spec fn pick(a: (int, int), b: (int, int)) -> (int, int) {
    if a.0 < 0 {
        b
    } else if b.0 < 0 {
        a
    } else if b.0 < a.0 {
        b
    } else {
        a
    }
}

/// The first comment marker in `l` at or after `i` (the text being read
/// starts at `i`), as (position, marker): markers 0, 1 and 2 are the line comments
/// `//`, `#` and `--`, which need whitespace or the start of the text before
/// them; 3 opens a block comment `/*`, also after whitespace; 4 and 5 open
/// docstrings, three double or single quotes, anywhere. The position is -1
/// when there is none.
pub open spec fn earliest_marker(l: Seq<char>, i: int) -> (int, int) {
    pick(
        pick(
            pick(
                pick(
                    pick((find_marker(l, i, i, line_slash()), 0), (find_marker(l, i, i, line_hash()), 1)),
                    (find_marker(l, i, i, line_dash()), 2),
                ),
                (find_marker(l, i, i, block_open()), 3),
            ),
            (find_from(l, i, doc_double()), 4),
        ),
        (find_from(l, i, doc_single()), 5),
    )
}

/// A found marker lies at or after `p` and matches there; no match comes
/// before it.
pub proof fn lemma_find_from(l: Seq<char>, p: int, m: Seq<char>)
    requires
        0 <= p,
        m.len() > 0,
    ensures
        find_from(l, p, m) == -1 || (p <= find_from(l, p, m) && matches_at(l, find_from(l, p, m), m)),
        forall|q: int| p <= q && (find_from(l, p, m) == -1 || q < find_from(l, p, m)) ==> !matches_at(l, q, m),
    decreases l.len() - p,
{
    if p + m.len() <= l.len() && !matches_at(l, p, m) {
        lemma_find_from(l, p + 1, m);
    }
}

/// A found comment marker lies at or after `p` and matches there.
pub proof fn lemma_find_marker(l: Seq<char>, base: int, p: int, m: Seq<char>)
    requires
        0 <= p,
        m.len() > 0,
    ensures
        find_marker(l, base, p, m) == -1 || (p <= find_marker(l, base, p, m) && matches_at(
            l,
            find_marker(l, base, p, m),
            m,
        )),
    decreases l.len() - p,
{
    if p + m.len() <= l.len() && !(matches_at(l, p, m) && (p == base || is_space_char(l[p - 1]))) {
        lemma_find_marker(l, base, p + 1, m);
    }
}

/// Reads the line `l` from `i` on in state `st`: the code it keeps, and the
/// state at its end.
pub open spec fn scan(l: Seq<char>, i: int, st: CommentState) -> (Seq<char>, CommentState)
    decreases l.len() - i,
{
    if i < 0 || i >= l.len() {
        (Seq::empty(), st)
    } else {
        proof {
            lemma_find_from(l, i, block_close());
            lemma_find_from(l, i, doc_double());
            lemma_find_from(l, i, doc_single());
        }
        match st {
            CommentState::InBlock => {
                let q = find_from(l, i, block_close());
                if q < 0 {
                    (Seq::empty(), st)
                } else {
                    scan(l, q + 2, CommentState::Code)
                }
            },
            CommentState::InDocDouble => {
                let q = find_from(l, i, doc_double());
                if q < 0 {
                    (Seq::empty(), st)
                } else {
                    scan(l, q + 3, CommentState::Code)
                }
            },
            CommentState::InDocSingle => {
                let q = find_from(l, i, doc_single());
                if q < 0 {
                    (Seq::empty(), st)
                } else {
                    scan(l, q + 3, CommentState::Code)
                }
            },
            CommentState::Code => {
                let (p, k) = earliest_marker(l, i);
                if p < i {
                    (l.subrange(i, l.len() as int), st)
                } else if k <= 2 {
                    (l.subrange(i, p), st)
                } else {
                    proof {
                        lemma_find_from(l, p + 2, block_close());
                        lemma_find_from(l, p + 3, doc_double());
                        lemma_find_from(l, p + 3, doc_single());
                    }
                    let (close, len, open) = if k == 3 {
                        (find_from(l, p + 2, block_close()), 2int, CommentState::InBlock)
                    } else if k == 4 {
                        (find_from(l, p + 3, doc_double()), 3int, CommentState::InDocDouble)
                    } else {
                        (find_from(l, p + 3, doc_single()), 3int, CommentState::InDocSingle)
                    };
                    if close < 0 {
                        (l.subrange(i, p), open)
                    } else {
                        let rest = scan(l, close + len, CommentState::Code);
                        (l.subrange(i, p) + rest.0, rest.1)
                    }
                }
            },
        }
    }
}

/// Length of `o` once trailing whitespace is trimmed.
pub open spec fn trimmed_len(o: Seq<char>) -> int
    decreases o.len(),
{
    if o.len() == 0 {
        0
    } else if is_space_char(o.last()) {
        trimmed_len(o.drop_last())
    } else {
        o.len() as int
    }
}

/// What a line of kept code contributes to the output: nothing when it holds
/// only whitespace, else the code without trailing whitespace and a line feed.
pub open spec fn emit(o: Seq<char>) -> Seq<char> {
    if trimmed_len(o) > 0 {
        o.subrange(0, trimmed_len(o)) + seq!['\n']
    } else {
        Seq::empty()
    }
}

/// The code of the source lines `ls` read from state `st`.
pub open spec fn code_lines(ls: Seq<Seq<char>>, st: CommentState) -> Seq<char>
    decreases ls.len(),
{
    if ls.len() == 0 {
        Seq::empty()
    } else {
        let r = scan(ls[0], 0, st);
        emit(r.0) + code_lines(ls.drop_first(), r.1)
    }
}

/// The code of the source text `t`: comments (`//`, `#`, `--`, `/* */`) and
/// docstrings (three double or single quotes) dropped, lines left blank
/// dropped, trailing whitespace trimmed.
pub open spec fn code_text(t: Seq<char>) -> Seq<char> {
    code_lines(text_lines(t), CommentState::Code)
}


/// The bytes that the comment filter gives for `s`: the UTF-8 encoding of the
/// code of its text, or `s` itself when it is not well-formed UTF-8.
pub open spec fn code_filtered(s: Seq<u8>) -> Seq<u8> {
    if valid_utf8(s) {
        encode_utf8(code_text(decode_utf8(s)))
    } else {
        s
    }
}

/// The position a search result stands for: the index, or -1 for none.
pub open spec fn found_pos(o: Option<usize>) -> int {
    match o {
        Some(q) => q as int,
        None => -1,
    }
}

/// Whether `m` occurs in `l` at `q`.
fn matches_here(l: &Vec<char>, q: usize, m: &Vec<char>) -> (res: bool)
    requires
        q + m@.len() <= l@.len(),
    ensures
        res == matches_at(l@, q as int, m@),
{
    let ln = l.len();
    let mut k: usize = 0;
    while k < m.len()
        invariant
            ln == l@.len(),
            q + m@.len() <= l@.len(),
            k <= m@.len(),
            forall|j: int| 0 <= j < k ==> l@[q + j] == m@[j],
        decreases m@.len() - k,
    {
        if l[q + k] != m[k] {
            assert(l@.subrange(q as int, q + m@.len())[k as int] == l@[q + k]);
            return false;
        }
        k = k + 1;
    }
    assert(l@.subrange(q as int, q + m@.len()) =~= m@);
    true
}

/// The first occurrence of `m` in `l` at or after `p`.
fn find_seq(l: &Vec<char>, p: usize, m: &Vec<char>) -> (res: Option<usize>)
    requires
        m@.len() > 0,
    ensures
        found_pos(res) == find_from(l@, p as int, m@),
{
    let mut q = p;
    while q < l.len() && m.len() <= l.len() - q
        invariant
            m@.len() > 0,
            p <= q,
            find_from(l@, q as int, m@) == find_from(l@, p as int, m@),
        decreases l@.len() - q,
    {
        if matches_here(l, q, m) {
            return Some(q);
        }
        q = q + 1;
    }
    None
}

/// The first occurrence of the comment marker `m` in `l` at or after `p` that
/// is at `base` or follows whitespace.
fn find_comment_marker(l: &Vec<char>, base: usize, p: usize, m: &Vec<char>) -> (res: Option<usize>)
    requires
        m@.len() > 0,
        base <= p,
    ensures
        found_pos(res) == find_marker(l@, base as int, p as int, m@),
{
    let mut q = p;
    while q < l.len() && m.len() <= l.len() - q
        invariant
            m@.len() > 0,
            base <= p <= q,
            find_marker(l@, base as int, q as int, m@) == find_marker(l@, base as int, p as int, m@),
        decreases l@.len() - q,
    {
        if matches_here(l, q, m) && (q == base || (q > 0 && unicode_space(l[q - 1] as u32))) {
            return Some(q);
        }
        q = q + 1;
    }
    None
}

/// Of two candidate markers, the one that comes first (the first on a tie).
fn pick_first(a: (Option<usize>, usize), b: (Option<usize>, usize)) -> (res: (Option<usize>, usize))
    ensures
        (found_pos(res.0), res.1 as int) == pick((found_pos(a.0), a.1 as int), (found_pos(b.0), b.1 as int)),
{
    match (a.0, b.0) {
        (None, _) => b,
        (_, None) => a,
        (Some(x), Some(y)) => if y < x {
            b
        } else {
            a
        },
    }
}

/// The markers the comment filter looks for.
struct Markers {
    slash: Vec<char>,
    hash: Vec<char>,
    dash: Vec<char>,
    open: Vec<char>,
    close: Vec<char>,
    double: Vec<char>,
    single: Vec<char>,
}

impl Markers {
    spec fn wf(&self) -> bool {
        &&& self.slash@ == line_slash()
        &&& self.hash@ == line_hash()
        &&& self.dash@ == line_dash()
        &&& self.open@ == block_open()
        &&& self.close@ == block_close()
        &&& self.double@ == doc_double()
        &&& self.single@ == doc_single()
    }

    fn new() -> (res: Markers)
        ensures
            res.wf(),
    {
        let m = Markers {
            slash: vec!['/', '/'],
            hash: vec!['#'],
            dash: vec!['-', '-'],
            open: vec!['/', '*'],
            close: vec!['*', '/'],
            double: vec!['"', '"', '"'],
            single: vec!['\'', '\'', '\''],
        };
        assert(m.slash@ =~= line_slash());
        assert(m.hash@ =~= line_hash());
        assert(m.dash@ =~= line_dash());
        assert(m.open@ =~= block_open());
        assert(m.close@ =~= block_close());
        assert(m.double@ =~= doc_double());
        assert(m.single@ =~= doc_single());
        m
    }
}

/// Appends `l[lo..hi]` to `out`.
fn push_range(l: &Vec<char>, lo: usize, hi: usize, out: &mut Vec<char>)
    requires
        lo <= hi <= l@.len(),
    ensures
        final(out)@ == old(out)@ + l@.subrange(lo as int, hi as int),
{
    let mut k = lo;
    while k < hi
        invariant
            lo <= k <= hi <= l@.len(),
            out@ == old(out)@ + l@.subrange(lo as int, k as int),
        decreases hi - k,
    {
        out.push(l[k]);
        assert(old(out)@ + l@.subrange(lo as int, k + 1) =~= out@);
        k = k + 1;
    }
}

/// Reads the source line `l` in state `st`: the code it keeps, and the state
/// at its end.
fn scan_line(l: &Vec<char>, st: CommentState, mk: &Markers) -> (res: (Vec<char>, CommentState))
    requires
        mk.wf(),
    ensures
        (res.0@, res.1) == scan(l@, 0, st),
{
    let n = l.len();
    let mut out: Vec<char> = Vec::new();
    let mut state = st;
    let mut i: usize = 0;
    while i < n
        invariant
            n == l@.len(),
            mk.wf(),
            i <= n,
            scan(l@, 0, st) == (out@ + scan(l@, i as int, state).0, scan(l@, i as int, state).1),
        decreases n - i,
    {
        let ghost before = out@;
        let ghost r = scan(l@, i as int, state);
        proof {
            lemma_find_from(l@, i as int, block_close());
            lemma_find_from(l@, i as int, doc_double());
            lemma_find_from(l@, i as int, doc_single());
        }
        match state {
            CommentState::InBlock => {
                match find_seq(l, i, &mk.close) {
                    None => {
                        i = n;
                    },
                    Some(q) => {
                        i = q + 2;
                        state = CommentState::Code;
                    },
                }
            },
            CommentState::InDocDouble => {
                match find_seq(l, i, &mk.double) {
                    None => {
                        i = n;
                    },
                    Some(q) => {
                        i = q + 3;
                        state = CommentState::Code;
                    },
                }
            },
            CommentState::InDocSingle => {
                match find_seq(l, i, &mk.single) {
                    None => {
                        i = n;
                    },
                    Some(q) => {
                        i = q + 3;
                        state = CommentState::Code;
                    },
                }
            },
            CommentState::Code => {
                let c0 = (find_comment_marker(l, i, i, &mk.slash), 0usize);
                let c1 = (find_comment_marker(l, i, i, &mk.hash), 1usize);
                let c2 = (find_comment_marker(l, i, i, &mk.dash), 2usize);
                let c3 = (find_comment_marker(l, i, i, &mk.open), 3usize);
                let c4 = (find_seq(l, i, &mk.double), 4usize);
                let c5 = (find_seq(l, i, &mk.single), 5usize);
                let best = pick_first(pick_first(pick_first(pick_first(pick_first(c0, c1), c2), c3), c4), c5);
                proof {
                    lemma_find_marker(l@, i as int, i as int, line_slash());
                    lemma_find_marker(l@, i as int, i as int, line_hash());
                    lemma_find_marker(l@, i as int, i as int, line_dash());
                    lemma_find_marker(l@, i as int, i as int, block_open());
                    assert((found_pos(best.0), best.1 as int) == earliest_marker(l@, i as int));
                }
                match best.0 {
                    None => {
                        push_range(l, i, n, &mut out);
                        assert(r == (l@.subrange(i as int, n as int), CommentState::Code));
                        i = n;
                    },
                    Some(p) => {
                        assert(i <= p && p < n);
                        push_range(l, i, p, &mut out);
                        let marker = best.1;
                        if marker <= 2 {
                            assert(r == (l@.subrange(i as int, p as int), CommentState::Code));
                            i = n;
                        } else {
                            let (close, len, open) = if marker == 3 {
                                proof {
                                    lemma_find_from(l@, p + 2, block_close());
                                }
                                (find_seq(l, p + 2, &mk.close), 2usize, CommentState::InBlock)
                            } else if marker == 4 {
                                proof {
                                    lemma_find_from(l@, p + 3, doc_double());
                                }
                                (find_seq(l, p + 3, &mk.double), 3usize, CommentState::InDocDouble)
                            } else {
                                proof {
                                    lemma_find_from(l@, p + 3, doc_single());
                                }
                                (find_seq(l, p + 3, &mk.single), 3usize, CommentState::InDocSingle)
                            };
                            match close {
                                None => {
                                    assert(r == (l@.subrange(i as int, p as int), open));
                                    state = open;
                                    i = n;
                                },
                                Some(c) => {
                                    assert(r.0 == l@.subrange(i as int, p as int) + scan(l@, c + len, CommentState::Code).0);
                                    assert(r.1 == scan(l@, c + len, CommentState::Code).1);
                                    i = c + len;
                                },
                            }
                        }
                    },
                }
            },
        }
        proof {
            assert(scan(l@, 0, st) == (out@ + scan(l@, i as int, state).0, scan(l@, i as int, state).1)) by {
                assert(before + r.0 =~= out@ + scan(l@, i as int, state).0);
            }
        }
    }
    assert(out@ + Seq::<char>::empty() =~= out@);
    (out, state)
}


/// Appends what the kept code `o` of a line contributes to the output.
fn push_emitted(o: &Vec<char>, out: &mut Vec<char>)
    ensures
        final(out)@ == old(out)@ + emit(o@),
{
    let mut k = o.len();
    assert(o@.subrange(0, k as int) =~= o@);
    while k > 0 && unicode_space(o[k - 1] as u32)
        invariant
            k <= o@.len(),
            trimmed_len(o@.subrange(0, k as int)) == trimmed_len(o@),
        decreases k,
    {
        assert(o@.subrange(0, k as int).drop_last() =~= o@.subrange(0, k - 1));
        assert(o@.subrange(0, k as int).last() == o@[k - 1]);
        k = k - 1;
    }
    if k > 0 {
        assert(o@.subrange(0, k as int).last() == o@[k - 1]);
        assert(trimmed_len(o@) == k);
        push_range(o, 0, k, out);
        out.push('\n');
        assert(final(out)@ =~= old(out)@ + emit(o@));
    } else {
        assert(trimmed_len(o@) == 0);
        assert(old(out)@ + Seq::<char>::empty() =~= old(out)@);
    }
}

/// The code of source `data`: comments (`//`, `#` and `--` after whitespace
/// or at the start of the text being read, `/* ... */`) and docstrings (between
/// three double or three single quotes) dropped, trailing whitespace trimmed,
/// lines left blank dropped, and every kept line ended by a line feed. Input
/// that is not well-formed UTF-8 comes back unchanged.
pub fn filter_code_comments(data: &[u8]) -> (res: Vec<u8>)
    ensures
        res@ == code_filtered(data@),
{
    if !is_valid_utf8(data) {
        return vstd::slice::slice_to_vec(data);
    }
    let t = decode_chars(data);
    let mk = Markers::new();
    let n = t.len();
    let mut out: Vec<char> = Vec::new();
    let mut state = CommentState::Code;
    let mut pos: usize = 0;
    assert(Seq::<char>::empty() + code_text(t@) =~= code_text(t@));
    while pos < n
        invariant
            n == t@.len(),
            mk.wf(),
            pos <= n,
            out@ + code_lines(text_lines_from(t@, pos as int), state) == code_text(t@),
        decreases n - pos,
    {
        let (lo, hi, next) = line_bounds(&t, pos);
        let ghost ls = text_lines_from(t@, pos as int);
        proof {
            assert(ls[0] == t@.subrange(lo as int, hi as int));
            assert(ls.drop_first() =~= text_lines_from(t@, next as int));
        }
        let mut line: Vec<char> = Vec::new();
        push_range(&t, lo, hi, &mut line);
        assert(line@ =~= t@.subrange(lo as int, hi as int));
        let (kept, after) = scan_line(&line, state, &mk);
        let ghost before = out@;
        push_emitted(&kept, &mut out);
        proof {
            assert(before + (emit(kept@) + code_lines(ls.drop_first(), after)) =~= out@ + code_lines(ls.drop_first(), after));
        }
        state = after;
        pos = next;
    }
    let mut res: Vec<u8> = Vec::new();
    encode_chars(&out, &mut res);
    proof {
        assert(text_lines_from(t@, pos as int) =~= Seq::<Seq<char>>::empty());
        assert(out@ + Seq::<char>::empty() =~= out@);
        assert(Seq::<u8>::empty() + encode_utf8(out@) =~= encode_utf8(out@));
    }
    res
}

/// Whether `x` holds no line feed.
pub open spec fn no_line_feed(x: Seq<char>) -> bool {
    forall|k: int| 0 <= k < x.len() ==> x[k] != '\n'
}

proof fn lemma_sub_no_line_feed(x: Seq<char>, lo: int, hi: int)
    requires
        no_line_feed(x),
        0 <= lo <= hi <= x.len(),
    ensures
        no_line_feed(x.subrange(lo, hi)),
{
    assert forall|k: int| 0 <= k < hi - lo implies x.subrange(lo, hi)[k] != '\n' by {
        assert(x.subrange(lo, hi)[k] == x[lo + k]);
    }
}

proof fn lemma_concat_no_line_feed(x: Seq<char>, y: Seq<char>)
    requires
        no_line_feed(x),
        no_line_feed(y),
    ensures
        no_line_feed(x + y),
{
    assert forall|k: int| 0 <= k < (x + y).len() implies (x + y)[k] != '\n' by {
        if k >= x.len() {
            assert((x + y)[k] == y[k - x.len()]);
        }
    }
}

proof fn lemma_text_lines_no_line_feed(t: Seq<char>, i: int)
    requires
        0 <= i,
    ensures
        forall|k: int|
            0 <= k < text_lines_from(t, i).len() ==> no_line_feed(#[trigger] text_lines_from(t, i)[k]),
    decreases t.len() - i,
{
    if i < t.len() {
        lemma_next_lf(t, i);
        let e = next_lf(t, i);
        let l = t.subrange(i, e);
        assert forall|k: int| 0 <= k < l.len() implies l[k] != '\n' by {
            assert(l[k] == t[i + k]);
        }
        if e < t.len() {
            lemma_text_lines_no_line_feed(t, e + 1);
            lemma_sub_no_line_feed(l, 0, strip_cr(l).len() as int);
            assert(strip_cr(l) =~= l.subrange(0, strip_cr(l).len() as int));
            let ls = text_lines_from(t, i);
            assert forall|k: int| 0 <= k < ls.len() implies no_line_feed(#[trigger] ls[k]) by {
                if k > 0 {
                    assert(ls[k] == text_lines_from(t, e + 1)[k - 1]);
                }
            }
        }
    }
}

proof fn lemma_pick_from(a: (int, int), b: (int, int))
    ensures
        pick(a, b) == a || pick(a, b) == b,
{
}

/// Code that `scan` keeps is pieces of the line, so it holds no line feed
/// when the line holds none.
proof fn lemma_scan_no_line_feed(l: Seq<char>, i: int, st: CommentState)
    requires
        no_line_feed(l),
    ensures
        no_line_feed(scan(l, i, st).0),
    decreases l.len() - i,
{
    if 0 <= i < l.len() {
        lemma_find_from(l, i, block_close());
        lemma_find_from(l, i, doc_double());
        lemma_find_from(l, i, doc_single());
        match st {
            CommentState::InBlock => {
                let q = find_from(l, i, block_close());
                if q >= 0 {
                    lemma_scan_no_line_feed(l, q + 2, CommentState::Code);
                }
            },
            CommentState::InDocDouble => {
                let q = find_from(l, i, doc_double());
                if q >= 0 {
                    lemma_scan_no_line_feed(l, q + 3, CommentState::Code);
                }
            },
            CommentState::InDocSingle => {
                let q = find_from(l, i, doc_single());
                if q >= 0 {
                    lemma_scan_no_line_feed(l, q + 3, CommentState::Code);
                }
            },
            CommentState::Code => {
                lemma_find_marker(l, i, i, line_slash());
                lemma_find_marker(l, i, i, line_hash());
                lemma_find_marker(l, i, i, line_dash());
                lemma_find_marker(l, i, i, block_open());
                let c0 = (find_marker(l, i, i, line_slash()), 0int);
                let c1 = (find_marker(l, i, i, line_hash()), 1int);
                let c2 = (find_marker(l, i, i, line_dash()), 2int);
                let c3 = (find_marker(l, i, i, block_open()), 3int);
                let c4 = (find_from(l, i, doc_double()), 4int);
                let c5 = (find_from(l, i, doc_single()), 5int);
                lemma_pick_from(c0, c1);
                lemma_pick_from(pick(c0, c1), c2);
                lemma_pick_from(pick(pick(c0, c1), c2), c3);
                lemma_pick_from(pick(pick(pick(c0, c1), c2), c3), c4);
                lemma_pick_from(pick(pick(pick(pick(c0, c1), c2), c3), c4), c5);
                let (p, k) = earliest_marker(l, i);
                if p < i {
                    lemma_sub_no_line_feed(l, i, l.len() as int);
                } else {
                    assert(p <= l.len());
                    lemma_sub_no_line_feed(l, i, p);
                    if k > 2 {
                        lemma_find_from(l, p + 2, block_close());
                        lemma_find_from(l, p + 3, doc_double());
                        lemma_find_from(l, p + 3, doc_single());
                        let (close, len, open) = if k == 3 {
                            (find_from(l, p + 2, block_close()), 2int, CommentState::InBlock)
                        } else if k == 4 {
                            (find_from(l, p + 3, doc_double()), 3int, CommentState::InDocDouble)
                        } else {
                            (find_from(l, p + 3, doc_single()), 3int, CommentState::InDocSingle)
                        };
                        if close >= 0 {
                            lemma_scan_no_line_feed(l, close + len, CommentState::Code);
                            lemma_concat_no_line_feed(
                                l.subrange(i, p),
                                scan(l, close + len, CommentState::Code).0,
                            );
                        }
                    }
                }
            },
        }
    }
}

proof fn lemma_trimmed_len(o: Seq<char>)
    ensures
        0 <= trimmed_len(o) <= o.len(),
        trimmed_len(o) > 0 ==> !is_space_char(o[trimmed_len(o) - 1]),
    decreases o.len(),
{
    if o.len() > 0 && is_space_char(o.last()) {
        lemma_trimmed_len(o.drop_last());
    }
}

/// Whether `x` holds no `c`.
pub open spec fn avoids(x: Seq<char>, c: char) -> bool {
    forall|k: int| 0 <= k < x.len() ==> x[k] != c
}

/// A text without the ASCII character `c` encodes to bytes without the byte
/// of `c`.
pub(crate) proof fn lemma_encode_avoids(x: Seq<char>, c: char)
    requires
        (c as u32) <= 0x7f,
        avoids(x, c),
    ensures
        forall|k: int| 0 <= k < encode_utf8(x).len() ==> encode_utf8(x)[k] != (c as u32) as u8,
    decreases x.len(),
{
    if x.len() > 0 {
        let d = x[0];
        let rest = x.drop_first();
        assert forall|k: int| 0 <= k < rest.len() implies rest[k] != c by {
            assert(rest[k] == x[k + 1]);
        }
        lemma_encode_avoids(rest, c);
        lemma_encode_scalar_bytes(d);
        let head = encode_scalar(d as u32);
        let e = encode_utf8(x);
        assert(e =~= head + encode_utf8(rest));
        assert(d != c);
        assert forall|k: int| 0 <= k < e.len() implies e[k] != (c as u32) as u8 by {
            if k < head.len() {
                assert(e[k] == head[k]);
                if (d as u32) <= 0x7f {
                    vstd::utf8::char_u32_cast(c, c as u32);
                    vstd::utf8::char_u32_cast(d, d as u32);
                    assert((d as u32) != (c as u32));
                }
            } else {
                assert(e[k] == encode_utf8(rest)[k - head.len()]);
            }
        }
    }
}

/// A text without line feeds encodes to bytes without newlines.
proof fn lemma_encode_no_newline(x: Seq<char>)
    requires
        no_line_feed(x),
    ensures
        forall|k: int| 0 <= k < encode_utf8(x).len() ==> encode_utf8(x)[k] != NEWLINE,
{
    assert(('\n' as u32) == 10);
    lemma_encode_avoids(x, '\n');
}

/// A text whose last character is not whitespace encodes to bytes that are
/// not all ASCII whitespace.
proof fn lemma_encode_not_blank(x: Seq<char>)
    requires
        x.len() > 0,
        !is_space_char(x.last()),
    ensures
        !is_blank(encode_utf8(x)),
{
    let c = x.last();
    assert(x =~= x.drop_last() + seq![c]);
    lemma_encode_concat(x.drop_last(), seq![c]);
    lemma_encode_one(c);
    lemma_encode_scalar_bytes(c);
    let at = encode_utf8(x.drop_last()).len() as int;
    let e = encode_utf8(x);
    let head = encode_scalar(c as u32);
    assert(head.len() > 0);
    assert(e[at] == head[0]);
    assert(!is_ascii_space(e[at]));
}

pub(crate) proof fn lemma_encode_one(c: char)
    ensures
        encode_utf8(seq![c]) == encode_scalar(c as u32),
{
    let one = seq![c];
    assert(one[0] == c);
    assert(one.drop_first() =~= Seq::<char>::empty());
    assert(encode_utf8(Seq::<char>::empty()) =~= Seq::<u8>::empty());
    assert(encode_utf8(one) =~= encode_scalar(c as u32) + encode_utf8(one.drop_first()));
    assert(encode_utf8(one) =~= encode_scalar(c as u32));
}

/// The one line of a piece that a newline ends and that holds no other.
pub(crate) proof fn lemma_single_line(e: Seq<u8>)
    requires
        forall|k: int| 0 <= k < e.len() ==> e[k] != NEWLINE,
    ensures
        lines(e.push(NEWLINE)) == seq![e],
{
    let s = e.push(NEWLINE);
    assert(s[e.len() as int] == NEWLINE);
    lemma_next_newline(s, 0);
    assert(next_newline(s, 0) == e.len()) by {
        if next_newline(s, 0) < e.len() {
            assert(s[next_newline(s, 0)] == e[next_newline(s, 0)]);
        }
    }
    assert(s.subrange(0, e.len() as int) =~= e);
    assert(lines_from(s, e.len() + 1int) =~= Seq::<Seq<u8>>::empty());
    assert(lines(s) =~= seq![e]);
}

proof fn lemma_code_lines_no_blank(ls: Seq<Seq<char>>, st: CommentState)
    requires
        forall|k: int| 0 <= k < ls.len() ==> no_line_feed(#[trigger] ls[k]),
    ensures
        blank_line_count(encode_utf8(code_lines(ls, st))) == 0,
    decreases ls.len(),
{
    if ls.len() == 0 {
        assert(lines(Seq::<u8>::empty()) =~= Seq::<Seq<u8>>::empty());
        assert(encode_utf8(Seq::<char>::empty()) =~= Seq::<u8>::empty());
        reveal(Seq::filter);
    } else {
        let r = scan(ls[0], 0, st);
        lemma_scan_no_line_feed(ls[0], 0, st);
        let rest = ls.drop_first();
        assert forall|k: int| 0 <= k < rest.len() implies no_line_feed(#[trigger] rest[k]) by {
            assert(rest[k] == ls[k + 1]);
        }
        lemma_code_lines_no_blank(rest, r.1);
        let tail_code = code_lines(rest, r.1);
        lemma_trimmed_len(r.0);
        if trimmed_len(r.0) > 0 {
            let x = r.0.subrange(0, trimmed_len(r.0));
            lemma_sub_no_line_feed(r.0, 0, trimmed_len(r.0));
            assert(x.last() == r.0[trimmed_len(r.0) - 1]);
            lemma_encode_no_newline(x);
            lemma_encode_not_blank(x);
            lemma_encode_concat(x, seq!['\n']);
            assert(('\n' as u32) == 10);
            lemma_encode_scalar_bytes('\n');
            lemma_encode_one('\n');
            assert(encode_utf8(seq!['\n']) =~= seq![NEWLINE]);
            let e = encode_utf8(x);
            let piece = encode_utf8(emit(r.0));
            assert(piece =~= e.push(NEWLINE));
            lemma_single_line(e);
            reveal_with_fuel(Seq::filter, 2);
            assert(seq![e].drop_last() =~= Seq::<Seq<u8>>::empty());
            assert(blank_line_count(piece) == 0);
            lemma_encode_concat(emit(r.0), tail_code);
            lemma_line_counts_concat(piece, encode_utf8(tail_code));
        } else {
            assert(emit(r.0) + tail_code =~= tail_code);
        }
    }
}

/// The comment filter leaves no blank line: every line of what it gives for
/// well-formed UTF-8 holds code.
pub proof fn lemma_code_filter_no_blank_lines(s: Seq<u8>)
    requires
        valid_utf8(s),
    ensures
        blank_line_count(code_filtered(s)) == 0,
{
    let t = decode_utf8(s);
    lemma_text_lines_no_line_feed(t, 0);
    lemma_code_lines_no_blank(text_lines(t), CommentState::Code);
}

proof fn lemma_avoids_concat(x: Seq<char>, y: Seq<char>, c: char)
    requires
        avoids(x, c),
        avoids(y, c),
    ensures
        avoids(x + y, c),
{
    assert forall|k: int| 0 <= k < (x + y).len() implies (x + y)[k] != c by {
        if k >= x.len() {
            assert((x + y)[k] == y[k - x.len()]);
        }
    }
}

proof fn lemma_inline_avoids_backtick(l: Seq<char>, i: int, in_code: bool)
    ensures
        avoids(inline_from(l, i, in_code), '`'),
    decreases l.len() - i,
{
    if 0 <= i < l.len() {
        lemma_inline_avoids_backtick(l, i + 1, !in_code);
        lemma_inline_avoids_backtick(l, i + 1, in_code);
        if l[i] != '`' && !in_code {
            lemma_avoids_concat(seq![l[i]], inline_from(l, i + 1, in_code), '`');
        }
    }
}

proof fn lemma_markdown_lines_avoid_backtick(ls: Seq<Seq<char>>, in_block: bool)
    ensures
        avoids(markdown_lines(ls, in_block), '`'),
    decreases ls.len(),
{
    if ls.len() > 0 {
        lemma_markdown_lines_avoid_backtick(ls.drop_first(), !in_block);
        lemma_markdown_lines_avoid_backtick(ls.drop_first(), in_block);
        if !is_fence(ls[0]) && !in_block {
            lemma_inline_avoids_backtick(ls[0], 0, false);
            lemma_avoids_concat(strip_inline_code(ls[0]), seq!['\n'], '`');
            lemma_avoids_concat(
                strip_inline_code(ls[0]) + seq!['\n'],
                markdown_lines(ls.drop_first(), in_block),
                '`',
            );
        }
    }
}

/// The Markdown filter leaves no backtick: on well-formed UTF-8, fences and
/// the code between them go, and so do inline code spans with their
/// backticks (byte 0x60).
pub proof fn lemma_markdown_filter_drops_backticks(s: Seq<u8>)
    requires
        valid_utf8(s),
    ensures
        forall|k: int| 0 <= k < markdown_filtered(s).len() ==> markdown_filtered(s)[k] != 0x60,
{
    let t = decode_utf8(s);
    lemma_markdown_lines_avoid_backtick(text_lines(t), false);
    assert(('`' as u32) == 0x60);
    lemma_encode_avoids(markdown_text(t), '`');
}

/// Whether `x` holds no character of a comment or docstring marker (`/`,
/// `*`, `#`, `-`, `"`, `'`) and no line break.
pub open spec fn marker_free(x: Seq<char>) -> bool {
    forall|k: int|
        0 <= k < x.len() ==> #[trigger] x[k] != '/' && x[k] != '*' && x[k] != '#' && x[k] != '-'
            && x[k] != '"' && x[k] != '\'' && x[k] != '\n' && x[k] != '\r'
}

/// Where no character of `l` from `q` to `r` starts the marker `m`, searching
/// from `q` finds what searching from `r` finds.
proof fn lemma_search_skip(l: Seq<char>, base: int, q: int, r: int, m: Seq<char>)
    requires
        0 <= q <= r,
        m.len() > 0,
        forall|j: int| q <= j < r && j < l.len() ==> l[j] != m[0],
    ensures
        find_from(l, q, m) == find_from(l, r, m),
        find_marker(l, base, q, m) == find_marker(l, base, r, m),
    decreases r - q,
{
    if q < r {
        if q + m.len() <= l.len() {
            assert(!matches_at(l, q, m)) by {
                if matches_at(l, q, m) {
                    assert(l.subrange(q, q + m.len())[0] == l[q]);
                }
            }
            lemma_search_skip(l, base, q + 1, r, m);
        }
    }
}

/// A block comment opened and closed on one line drops only itself: on the
/// line `x /*c*/y`, where `x` and `y` hold no marker character and `c` no `*`
/// and no line break, the code kept is `x`, a space and `y`, and the filter
/// gives that line (trimmed) for it.
pub proof fn lemma_inline_block_comment(x: Seq<char>, c: Seq<char>, y: Seq<char>)
    requires
        marker_free(x),
        marker_free(y),
        forall|k: int| 0 <= k < c.len() ==> #[trigger] c[k] != '*' && c[k] != '\n' && c[k] != '\r',
    ensures
        scan(x + seq![' ', '/', '*'] + c + seq!['*', '/'] + y, 0, CommentState::Code) == (
            x + seq![' '] + y,
            CommentState::Code,
        ),
        code_filtered(encode_utf8((x + seq![' ', '/', '*'] + c + seq!['*', '/'] + y).push('\n')))
            == encode_utf8(emit(x + seq![' '] + y)),
{
    let l = x + seq![' ', '/', '*'] + c + seq!['*', '/'] + y;
    let n = x.len() as int;
    let p = n + 1;
    let close = n + 3 + c.len();
    let after = close + 2;
    assert(l.len() == after + y.len());
    assert forall|j: int| 0 <= j < n implies l[j] == x[j] by {}
    assert(l[n] == ' ');
    assert(l[p] == '/');
    assert(l[p + 1] == '*');
    assert forall|j: int| 0 <= j < c.len() implies l[n + 3 + j] == c[j] by {}
    assert(l[close] == '*');
    assert(l[close + 1] == '/');
    assert forall|j: int| 0 <= j < y.len() implies l[after + j] == y[j] by {}
    assert forall|j: int| after <= j < l.len() implies #[trigger] l[j] == y[j - after] by {}
    assert forall|j: int| n + 3 <= j < close implies #[trigger] l[j] == c[j - n - 3] by {}
    // The markers other than `/*` first match after `p`.
    let c0 = find_marker(l, 0, 0, line_slash());
    let c1 = find_marker(l, 0, 0, line_hash());
    let c2 = find_marker(l, 0, 0, line_dash());
    let c3 = find_marker(l, 0, 0, block_open());
    let c4 = find_from(l, 0, doc_double());
    let c5 = find_from(l, 0, doc_single());
    assert(line_slash()[0] == '/' && line_slash()[1] == '/');
    assert(line_hash()[0] == '#');
    assert(line_dash()[0] == '-');
    assert(block_open()[0] == '/' && block_open()[1] == '*');
    assert(block_close()[0] == '*' && block_close()[1] == '/');
    assert(doc_double()[0] == '"');
    assert(doc_single()[0] == '\'');
    lemma_search_skip(l, 0, 0, p, line_slash());
    assert(!matches_at(l, p, line_slash())) by {
        if matches_at(l, p, line_slash()) {
            assert(l.subrange(p, p + 2)[1] == l[p + 1]);
        }
    }
    lemma_find_marker(l, 0, p + 1, line_slash());
    lemma_search_skip(l, 0, 0, p + 1, line_hash());
    lemma_find_marker(l, 0, p + 1, line_hash());
    lemma_search_skip(l, 0, 0, p + 1, line_dash());
    lemma_find_marker(l, 0, p + 1, line_dash());
    lemma_search_skip(l, 0, 0, p + 1, doc_double());
    lemma_find_from(l, p + 1, doc_double());
    lemma_search_skip(l, 0, 0, p + 1, doc_single());
    lemma_find_from(l, p + 1, doc_single());
    lemma_search_skip(l, 0, 0, p, block_open());
    assert(l.subrange(p, p + 2) =~= block_open());
    assert(is_space_char(l[p - 1]));
    assert(c0 == -1 || c0 > p);
    assert(c1 == -1 || c1 > p);
    assert(c2 == -1 || c2 > p);
    assert(c3 == p);
    assert(c4 == -1 || c4 > p);
    assert(c5 == -1 || c5 > p);
    assert(earliest_marker(l, 0) == (p, 3int));
    // The comment closes at `close`.
    lemma_search_skip(l, 0, p + 2, close, block_close());
    assert(l.subrange(close, close + 2) =~= block_close());
    assert(find_from(l, p + 2, block_close()) == close);
    // The rest of the line is code.
    lemma_search_skip(l, after, after, l.len() as int, line_slash());
    lemma_search_skip(l, after, after, l.len() as int, line_hash());
    lemma_search_skip(l, after, after, l.len() as int, line_dash());
    lemma_search_skip(l, after, after, l.len() as int, block_open());
    lemma_search_skip(l, after, after, l.len() as int, doc_double());
    lemma_search_skip(l, after, after, l.len() as int, doc_single());
    if y.len() > 0 {
        assert(earliest_marker(l, after).0 == -1);
        assert(l.subrange(after, l.len() as int) =~= y);
    } else {
        assert(y =~= Seq::<char>::empty());
    }
    assert(scan(l, after, CommentState::Code) == (y, CommentState::Code));
    assert(l.subrange(0, p) =~= x + seq![' ']);
    assert(scan(l, 0, CommentState::Code) == (x + seq![' '] + y, CommentState::Code));
    // The filter reads the text back as one line.
    let t = l.push('\n');
    vstd::utf8::encode_utf8_valid_utf8(t);
    vstd::utf8::encode_utf8_decode_utf8(t);
    assert forall|j: int| 0 <= j < l.len() implies #[trigger] l[j] != '\n' by {
        if j < n {
        } else if j < n + 3 {
        } else if j < close {
        } else if j < after {
        } else {
        }
    }
    lemma_next_lf(t, 0);
    assert(t[l.len() as int] == '\n');
    assert(next_lf(t, 0) == l.len()) by {
        if next_lf(t, 0) < l.len() {
            assert(t[next_lf(t, 0)] == l[next_lf(t, 0)]);
        }
    }
    assert(t.subrange(0, l.len() as int) =~= l);
    assert(l.last() != '\r') by {
        if y.len() > 0 {
            assert(l.last() == y[y.len() - 1]);
        }
    }
    assert(text_lines_from(t, l.len() + 1int) =~= Seq::<Seq<char>>::empty());
    assert(text_lines(t) =~= seq![l]);
    assert(seq![l].drop_first() =~= Seq::<Seq<char>>::empty());
    assert(code_lines(Seq::<Seq<char>>::empty(), CommentState::Code) =~= Seq::<char>::empty());
    assert(code_text(t) =~= emit(x + seq![' '] + y));
}

proof fn lemma_skip_space_bounds(l: Seq<char>, i: int)
    requires
        0 <= i <= l.len(),
    ensures
        i <= skip_space(l, i) <= l.len(),
    decreases l.len() - i,
{
    if i < l.len() && is_space_char(l[i]) {
        lemma_skip_space_bounds(l, i + 1);
    }
}

proof fn lemma_inline_plain(l: Seq<char>, i: int)
    requires
        0 <= i <= l.len(),
        forall|k: int| 0 <= k < l.len() ==> l[k] != '`',
    ensures
        inline_from(l, i, false) == l.subrange(i, l.len() as int),
    decreases l.len() - i,
{
    if i < l.len() {
        lemma_inline_plain(l, i + 1);
        assert(seq![l[i]] + l.subrange(i + 1, l.len() as int) =~= l.subrange(i, l.len() as int));
    } else {
        assert(l.subrange(i, l.len() as int) =~= Seq::<char>::empty());
    }
}

proof fn lemma_markdown_plain_from(t: Seq<char>, i: int)
    requires
        0 <= i <= t.len(),
        t.len() > 0 ==> t.last() == '\n',
        forall|k: int| 0 <= k < t.len() ==> #[trigger] t[k] != '`' && t[k] != '\r',
    ensures
        markdown_lines(text_lines_from(t, i), false) == t.subrange(i, t.len() as int),
    decreases t.len() - i,
{
    if i < t.len() {
        lemma_next_lf(t, i);
        let e = next_lf(t, i);
        assert(e < t.len()) by {
            if e == t.len() {
                assert(t[t.len() - 1] == '\n');
            }
        }
        let line = t.subrange(i, e);
        assert forall|k: int| 0 <= k < line.len() implies line[k] != '`' && line[k] != '\r' by {
            assert(line[k] == t[i + k]);
        }
        if line.len() > 0 {
            assert(line.last() == line[line.len() - 1]);
        }
        assert(strip_cr(line) == line);
        assert(!is_fence(line)) by {
            let k = skip_space(line, 0);
            lemma_skip_space_bounds(line, 0);
            if k + 3 <= line.len() {
                assert(line[k] != '`');
            }
        }
        let ls = text_lines_from(t, i);
        assert(ls[0] == line);
        assert(ls.drop_first() =~= text_lines_from(t, e + 1));
        lemma_markdown_plain_from(t, e + 1);
        lemma_inline_plain(line, 0);
        assert(line.subrange(0, line.len() as int) =~= line);
        assert(line + seq!['\n'] + t.subrange(e + 1, t.len() as int) =~= t.subrange(i, t.len() as int));
    } else {
        assert(t.subrange(i, t.len() as int) =~= Seq::<char>::empty());
        assert(text_lines_from(t, i) =~= Seq::<Seq<char>>::empty());
    }
}

/// The Markdown filter keeps every line outside a code block, empty lines
/// included: text with no backtick and no carriage return whose lines all end
/// with a line feed comes back unchanged, with as many lines.
pub proof fn lemma_markdown_keeps_plain_text(t: Seq<char>)
    requires
        t.len() > 0 ==> t.last() == '\n',
        forall|k: int| 0 <= k < t.len() ==> #[trigger] t[k] != '`' && t[k] != '\r',
    ensures
        markdown_text(t) == t,
        markdown_filtered(encode_utf8(t)) == encode_utf8(t),
{
    lemma_markdown_plain_from(t, 0);
    assert(t.subrange(0, t.len() as int) =~= t);
    vstd::utf8::encode_utf8_valid_utf8(t);
    vstd::utf8::encode_utf8_decode_utf8(t);
}

proof fn lemma_first_match_after(l: Seq<char>, p: int, mk: Seq<char>)
    requires
        0 < p < l.len(),
        mk.len() > 0,
        forall|j: int| 0 <= j < p ==> l[j] != mk[0],
        !matches_at(l, p, mk),
    ensures
        find_marker(l, 0, 0, mk) == -1 || find_marker(l, 0, 0, mk) > p,
        find_from(l, 0, mk) == -1 || find_from(l, 0, mk) > p,
{
    lemma_search_skip(l, 0, 0, p, mk);
    lemma_find_marker(l, 0, p + 1, mk);
    lemma_find_from(l, p + 1, mk);
}

/// A line comment drops the rest of its line: on the line `x //c` (or
/// `x #c`, `x --c`), where `x` holds no marker character, the code kept is
/// `x` and a space, whatever `c` holds.
pub proof fn lemma_line_comment(x: Seq<char>, mk: Seq<char>, c: Seq<char>)
    requires
        marker_free(x),
        mk == line_slash() || mk == line_hash() || mk == line_dash(),
    ensures
        scan(x + seq![' '] + mk + c, 0, CommentState::Code) == (x + seq![' '], CommentState::Code),
{
    let l = x + seq![' '] + mk + c;
    let n = x.len() as int;
    let p = n + 1;
    assert forall|j: int| 0 <= j < n implies l[j] == x[j] by {}
    assert(l[n] == ' ');
    assert(l[p] == mk[0]);
    if mk.len() > 1 {
        assert(l[p + 1] == mk[1]);
    }
    assert(line_slash()[0] == '/' && line_slash()[1] == '/' && line_slash().len() == 2);
    assert(line_hash()[0] == '#' && line_hash().len() == 1);
    assert(line_dash()[0] == '-' && line_dash()[1] == '-' && line_dash().len() == 2);
    assert(block_open()[0] == '/' && block_open()[1] == '*');
    assert(doc_double()[0] == '"');
    assert(doc_single()[0] == '\'');
    let ms = seq![line_slash(), line_hash(), line_dash(), block_open(), doc_double(), doc_single()];
    assert forall|i: int| 0 <= i < 6 && ms[i] != mk implies
        find_marker(l, 0, 0, #[trigger] ms[i]) == -1 || find_marker(l, 0, 0, ms[i]) > p by {
        let m2 = ms[i];
        assert(!matches_at(l, p, m2)) by {
            if matches_at(l, p, m2) {
                assert(l.subrange(p, p + m2.len())[0] == l[p]);
                if m2.len() > 1 {
                    assert(l.subrange(p, p + m2.len())[1] == l[p + 1]);
                }
                if mk.len() > 1 {
                    assert(mk =~= l.subrange(p, p + 2));
                }
            }
        }
        lemma_first_match_after(l, p, m2);
    }
    assert forall|i: int| 4 <= i < 6 implies find_from(l, 0, #[trigger] ms[i]) == -1 || find_from(l, 0, ms[i]) > p by {
        let m2 = ms[i];
        assert(!matches_at(l, p, m2)) by {
            if matches_at(l, p, m2) {
                assert(l.subrange(p, p + m2.len())[0] == l[p]);
            }
        }
        lemma_first_match_after(l, p, m2);
    }
    lemma_search_skip(l, 0, 0, p, mk);
    assert(l.subrange(p, p + mk.len()) =~= mk);
    assert(find_marker(l, 0, p, mk) == p);
    assert(ms[0] == line_slash() && ms[1] == line_hash() && ms[2] == line_dash());
    assert(ms[3] == block_open() && ms[4] == doc_double() && ms[5] == doc_single());
    let e = earliest_marker(l, 0);
    assert(e.0 == p && e.1 <= 2);
    assert(l.subrange(0, p) =~= x + seq![' ']);
}

proof fn lemma_markdown_region(t: Seq<char>, i: int, j: int, st: bool)
    requires
        0 <= i <= j <= t.len(),
        j > i ==> t[j - 1] == '\n',
        forall|k: int| i <= k < j ==> #[trigger] t[k] != '`' && t[k] != '\r',
    ensures
        markdown_lines(text_lines_from(t, i), st) == (if st {
            Seq::<char>::empty()
        } else {
            t.subrange(i, j)
        }) + markdown_lines(text_lines_from(t, j), st),
    decreases j - i,
{
    if i == j {
        assert(t.subrange(i, j) =~= Seq::<char>::empty());
        assert(Seq::<char>::empty() + markdown_lines(text_lines_from(t, j), st) =~= markdown_lines(
            text_lines_from(t, j),
            st,
        ));
    } else {
        lemma_next_lf(t, i);
        let e = next_lf(t, i);
        assert(e < j) by {
            if e >= j {
                assert(t[j - 1] == '\n');
            }
        }
        let line = t.subrange(i, e);
        assert forall|k: int| 0 <= k < line.len() implies line[k] != '`' && line[k] != '\r' by {
            assert(line[k] == t[i + k]);
        }
        if line.len() > 0 {
            assert(line.last() == line[line.len() - 1]);
        }
        assert(strip_cr(line) == line);
        assert(!is_fence(line)) by {
            let k = skip_space(line, 0);
            lemma_skip_space_bounds(line, 0);
            if k + 3 <= line.len() {
                assert(line[k] != '`');
            }
        }
        let ls = text_lines_from(t, i);
        assert(ls[0] == line);
        assert(ls.drop_first() =~= text_lines_from(t, e + 1));
        lemma_markdown_region(t, e + 1, j, st);
        if !st {
            lemma_inline_plain(line, 0);
            assert(line.subrange(0, line.len() as int) =~= line);
            assert(line + seq!['\n'] + (t.subrange(e + 1, j) + markdown_lines(text_lines_from(t, j), st))
                =~= t.subrange(i, j) + markdown_lines(text_lines_from(t, j), st));
        }
    }
}

/// The line of a code fence: three backticks.
pub open spec fn fence_line() -> Seq<char> {
    seq!['`', '`', '`', '\n']
}

proof fn lemma_markdown_fence(t: Seq<char>, f: int, st: bool)
    requires
        0 <= f,
        f + 4 <= t.len(),
        t.subrange(f, f + 4) == fence_line(),
    ensures
        markdown_lines(text_lines_from(t, f), st) == markdown_lines(text_lines_from(t, f + 4), !st),
{
    assert(t[f] == t.subrange(f, f + 4)[0]);
    assert(t[f + 1] == t.subrange(f, f + 4)[1]);
    assert(t[f + 2] == t.subrange(f, f + 4)[2]);
    assert(t[f + 3] == t.subrange(f, f + 4)[3]);
    lemma_next_lf(t, f);
    assert(next_lf(t, f) == f + 3) by {
        if next_lf(t, f) < f + 3 {
            assert(t[next_lf(t, f)] == '\n');
        }
    }
    let line = t.subrange(f, f + 3);
    assert(line =~= seq!['`', '`', '`']);
    assert(strip_cr(line) == line);
    assert(skip_space(line, 0) == 0);
    assert(is_fence(line));
    let ls = text_lines_from(t, f);
    assert(ls[0] == line);
    assert(ls.drop_first() =~= text_lines_from(t, f + 4));
}

/// Whether `t` is prose for the Markdown filter: no backtick, no carriage
/// return, and empty or ended by a line feed.
pub open spec fn plain_lines(t: Seq<char>) -> bool {
    &&& t.len() > 0 ==> t.last() == '\n'
    &&& forall|k: int| 0 <= k < t.len() ==> #[trigger] t[k] != '`' && t[k] != '\r'
}

/// A fenced code block goes whole: the Markdown filter gives for
/// `a`, a fence, `code`, a fence and `b` (each of them prose) just `a` then
/// `b`.
pub proof fn lemma_markdown_drops_fenced_block(a: Seq<char>, code: Seq<char>, b: Seq<char>)
    requires
        plain_lines(a),
        plain_lines(code),
        plain_lines(b),
    ensures
        markdown_text(a + fence_line() + code + fence_line() + b) == a + b,
{
    let t = a + fence_line() + code + fence_line() + b;
    let f1 = a.len() as int;
    let c0 = f1 + 4;
    let f2 = c0 + code.len();
    let b0 = f2 + 4;
    assert(t.len() == b0 + b.len());
    assert forall|k: int| 0 <= k < f1 implies #[trigger] t[k] == a[k] by {}
    assert forall|k: int| c0 <= k < f2 implies #[trigger] t[k] == code[k - c0] by {}
    assert forall|k: int| b0 <= k < t.len() implies #[trigger] t[k] == b[k - b0] by {}
    assert(t.subrange(f1, f1 + 4) =~= fence_line());
    assert(t.subrange(f2, f2 + 4) =~= fence_line());
    if a.len() > 0 {
        assert(t[f1 - 1] == a[a.len() - 1]);
    }
    if code.len() > 0 {
        assert(t[f2 - 1] == code[code.len() - 1]);
    }
    if b.len() > 0 {
        assert(t[t.len() - 1] == b[b.len() - 1]);
    }
    assert forall|k: int| 0 <= k < f1 implies #[trigger] t[k] != '`' && t[k] != '\r' by {
        assert(t[k] == a[k]);
    }
    assert forall|k: int| c0 <= k < f2 implies #[trigger] t[k] != '`' && t[k] != '\r' by {
        assert(t[k] == code[k - c0]);
    }
    assert forall|k: int| b0 <= k < t.len() implies #[trigger] t[k] != '`' && t[k] != '\r' by {
        assert(t[k] == b[k - b0]);
    }
    lemma_markdown_region(t, 0, f1, false);
    lemma_markdown_fence(t, f1, false);
    lemma_markdown_region(t, c0, f2, true);
    lemma_markdown_fence(t, f2, true);
    lemma_markdown_region(t, b0, t.len() as int, false);
    assert(text_lines_from(t, t.len() as int) =~= Seq::<Seq<char>>::empty());
    assert(t.subrange(0, f1) =~= a);
    assert(t.subrange(b0, t.len() as int) =~= b);
    assert(Seq::<char>::empty() + markdown_lines(text_lines_from(t, f2), true) =~= markdown_lines(
        text_lines_from(t, f2),
        true,
    ));
    assert(b + Seq::<char>::empty() =~= b);
}

} // verus!
