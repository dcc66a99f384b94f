//! Words: maximal runs of units that are not whitespace.
//!
//! A buffer that is well-formed UTF-8 is read as characters and split at
//! Unicode whitespace; any other buffer is read byte by byte and split at
//! ASCII whitespace.

use vstd::prelude::*;
use vstd::hash_set::StringHashSet;
use vstd::utf8::{decode_utf8, encode_utf8, pop_first_scalar, valid_first_scalar, valid_utf8};
use crate::linecount::is_ascii_space;
use crate::text::{lemma_unit_len_bounds, step, tail, unit_len, unit_len_at, unit_scalar};

verus! {

/// Whether `cp` is a whitespace character in Unicode's sense (the
/// White_Space property, as `char::is_whitespace` tests it).
pub open spec fn is_unicode_space(cp: u32) -> bool {
    ||| 0x09 <= cp <= 0x0d
    ||| cp == 0x20
    ||| cp == 0x85
    ||| cp == 0xa0
    ||| cp == 0x1680
    ||| 0x2000 <= cp <= 0x200a
    ||| cp == 0x2028
    ||| cp == 0x2029
    ||| cp == 0x202f
    ||| cp == 0x205f
    ||| cp == 0x3000
}

/// Whether `cp` is whitespace in Unicode's sense.
pub fn unicode_space(cp: u32) -> (res: bool)
    ensures
        res == is_unicode_space(cp),
{
    (0x09 <= cp && cp <= 0x0d) || cp == 0x20 || cp == 0x85 || cp == 0xa0 || cp == 0x1680 || (0x2000
        <= cp && cp <= 0x200a) || cp == 0x2028 || cp == 0x2029 || cp == 0x202f || cp == 0x205f
        || cp == 0x3000
}

/// Whether `b` is ASCII whitespace.
pub fn ascii_space(b: u8) -> (res: bool)
    ensures
        res == is_ascii_space(b),
{
    b == 0x20 || b == 0x09 || b == 0x0a || b == 0x0c || b == 0x0d
}

/// Bytes the reading advances over at `i`: a whole character when reading
/// characters, else one byte.
pub open spec fn unit_step(s: Seq<u8>, i: int, chars: bool) -> int {
    if chars {
        step(s, i)
    } else {
        1
    }
}

/// Whether the unit at `i` is whitespace: a whitespace character when
/// reading characters, else an ASCII whitespace byte.
pub open spec fn unit_is_space(s: Seq<u8>, i: int, chars: bool) -> bool {
    if chars {
        unit_len(s, i) > 0 && is_unicode_space(unit_scalar(s, i))
    } else {
        is_ascii_space(s[i])
    }
}

/// The words of `s` from `i` on. `start` is where the word being read began,
/// or -1 when the reading is between words.
pub open spec fn words_from(s: Seq<u8>, i: int, chars: bool, start: int) -> Seq<Seq<u8>>
    decreases s.len() - i,
{
    if i < 0 || i >= s.len() {
        if 0 <= start <= s.len() {
            seq![s.subrange(start, s.len() as int)]
        } else {
            Seq::empty()
        }
    } else {
        proof {
            lemma_unit_len_bounds(s, i);
        }
        let next = i + unit_step(s, i, chars);
        if unit_is_space(s, i, chars) {
            if start >= 0 {
                seq![s.subrange(start, i)] + words_from(s, next, chars, -1)
            } else {
                words_from(s, next, chars, -1)
            }
        } else {
            words_from(s, next, chars, if start >= 0 {
                start
            } else {
                i
            })
        }
    }
}

/// The words of `s`, in order: its maximal runs of units that are not
/// whitespace. Units are characters when `s` is well-formed UTF-8, else bytes.
pub open spec fn words(s: Seq<u8>) -> Seq<Seq<u8>> {
    words_from(s, 0, valid_utf8(s), -1)
}

/// Number of words of `s`.
pub open spec fn word_count(s: Seq<u8>) -> nat {
    words(s).len()
}

proof fn lemma_valid_step(s: Seq<u8>, i: int)
    requires
        0 <= i < s.len(),
    ensures
        valid_utf8(tail(s, i)) <==> (unit_len(s, i) > 0 && valid_utf8(tail(s, i + unit_len(s, i)))),
{
    lemma_unit_len_bounds(s, i);
    let t = tail(s, i);
    if unit_len(s, i) > 0 {
        assert(pop_first_scalar(t) =~= tail(s, i + unit_len(s, i)));
    }
}

/// Whether `data` is well-formed UTF-8.
pub fn is_valid_utf8(data: &[u8]) -> (res: bool)
    ensures
        res == valid_utf8(data@),
{
    let n = data.len();
    let mut i: usize = 0;
    assert(tail(data@, 0) =~= data@);
    while i < n
        invariant
            n == data@.len(),
            i <= n,
            valid_utf8(data@) == valid_utf8(tail(data@, i as int)),
        decreases n - i,
    {
        let (l, _) = unit_len_at(data, i);
        proof {
            lemma_valid_step(data@, i as int);
            lemma_unit_len_bounds(data@, i as int);
        }
        if l == 0 {
            return false;
        }
        i = i + l;
    }
    assert(tail(data@, n as int).len() == 0);
    true
}

/// Number of words that the reading from `i` on still has to finish or find.
pub open spec fn words_left(s: Seq<u8>, i: int, chars: bool, in_word: bool) -> nat
    decreases s.len() - i,
{
    if i < 0 || i >= s.len() {
        if in_word {
            1
        } else {
            0
        }
    } else {
        proof {
            lemma_unit_len_bounds(s, i);
        }
        let next = i + unit_step(s, i, chars);
        if unit_is_space(s, i, chars) {
            (if in_word {
                1nat
            } else {
                0nat
            }) + words_left(s, next, chars, false)
        } else {
            words_left(s, next, chars, true)
        }
    }
}

proof fn lemma_words_left(s: Seq<u8>, i: int, chars: bool, start: int)
    requires
        0 <= i <= s.len(),
        start <= i,
    ensures
        words_from(s, i, chars, start).len() == words_left(s, i, chars, start >= 0),
    decreases s.len() - i,
{
    if i < s.len() {
        lemma_unit_len_bounds(s, i);
        let next = i + unit_step(s, i, chars);
        if unit_is_space(s, i, chars) {
            lemma_words_left(s, next, chars, -1);
        } else {
            lemma_words_left(s, next, chars, if start >= 0 {
                start
            } else {
                i
            });
        }
    }
}

/// Whether the reading from `i` on ends inside a word.
pub open spec fn ends_in_word(s: Seq<u8>, i: int, chars: bool, in_word: bool) -> bool
    decreases s.len() - i,
{
    if i < 0 || i >= s.len() {
        in_word
    } else {
        proof {
            lemma_unit_len_bounds(s, i);
        }
        ends_in_word(s, i + unit_step(s, i, chars), chars, !unit_is_space(s, i, chars))
    }
}

proof fn lemma_ends_in_word_indep(s: Seq<u8>, i: int, chars: bool, w1: bool, w2: bool)
    requires
        0 <= i < s.len(),
    ensures
        ends_in_word(s, i, chars, w1) == ends_in_word(s, i, chars, w2),
{
}

/// Reading a unit of the first part of a buffer reads that part alone.
proof fn lemma_unit_concat(a: Seq<u8>, b: Seq<u8>, i: int, chars: bool)
    requires
        0 <= i < a.len(),
        chars ==> crate::text::starts_clean(b),
    ensures
        unit_is_space(a + b, i, chars) == unit_is_space(a, i, chars),
        unit_step(a + b, i, chars) == unit_step(a, i, chars),
{
    if chars {
        crate::text::lemma_unit_len_concat(a, b, i);
    } else {
        assert((a + b)[i] == a[i]);
    }
}

proof fn lemma_words_left_shift(a: Seq<u8>, b: Seq<u8>, j: int, chars: bool, w: bool)
    requires
        0 <= j <= b.len(),
    ensures
        words_left(a + b, a.len() + j, chars, w) == words_left(b, j, chars, w),
        ends_in_word(a + b, a.len() + j, chars, w) == ends_in_word(b, j, chars, w),
    decreases b.len() - j,
{
    if j < b.len() {
        crate::text::lemma_unit_len_shift(a, b, j);
        lemma_unit_len_bounds(b, j);
        assert((a + b)[a.len() + j] == b[j]);
        let next = j + unit_step(b, j, chars);
        lemma_words_left_shift(a, b, next, chars, false);
        lemma_words_left_shift(a, b, next, chars, true);
    }
}

proof fn lemma_words_left_concat_from(a: Seq<u8>, b: Seq<u8>, i: int, chars: bool, w: bool)
    requires
        0 <= i <= a.len(),
        chars ==> crate::text::starts_clean(b),
    ensures
        words_left(a + b, i, chars, w) + (if ends_in_word(a, i, chars, w) {
            1int
        } else {
            0int
        }) == words_left(a, i, chars, w) + words_left(b, 0, chars, ends_in_word(a, i, chars, w)),
        ends_in_word(a + b, i, chars, w) == ends_in_word(b, 0, chars, ends_in_word(a, i, chars, w)),
    decreases a.len() - i,
{
    if i == a.len() {
        lemma_words_left_shift(a, b, 0, chars, w);
    } else {
        lemma_unit_concat(a, b, i, chars);
        lemma_unit_len_bounds(a, i);
        let next = i + unit_step(a, i, chars);
        lemma_words_left_concat_from(a, b, next, chars, false);
        lemma_words_left_concat_from(a, b, next, chars, true);
    }
}

/// Words are counted piecewise. Cut a buffer in two (where a character does
/// not continue, when reading characters): the words of the whole are those of
/// the parts, less one when the first part ends inside a word and the second
/// starts with one, which then is the same word.
pub proof fn lemma_words_concat(a: Seq<u8>, b: Seq<u8>, chars: bool)
    requires
        chars ==> crate::text::starts_clean(b),
    ensures
        words_left(a + b, 0, chars, false) == words_left(a, 0, chars, false) + words_left(
            b,
            0,
            chars,
            false,
        ) - (if ends_in_word(a, 0, chars, false) && b.len() > 0 && !unit_is_space(b, 0, chars) {
            1int
        } else {
            0int
        }),
        ends_in_word(a + b, 0, chars, false) == ends_in_word(b, 0, chars, ends_in_word(a, 0, chars, false)),
{
    lemma_words_left_concat_from(a, b, 0, chars, false);
    lemma_words_start(b, chars);
}

proof fn lemma_words_start(b: Seq<u8>, chars: bool)
    ensures
        words_left(b, 0, chars, true) == words_left(b, 0, chars, false) + (if b.len() == 0
            || unit_is_space(b, 0, chars) {
            1int
        } else {
            0int
        }),
{
    if b.len() > 0 {
        lemma_unit_len_bounds(b, 0);
    }
}

proof fn lemma_words_left_le(s: Seq<u8>, i: int, chars: bool, w: bool)
    requires
        0 <= i <= s.len(),
    ensures
        words_left(s, i, chars, w) <= s.len() - i + (if w { 1int } else { 0int }),
        ends_in_word(s, i, chars, w) ==> words_left(s, i, chars, w) >= 1,
    decreases s.len() - i,
{
    if i < s.len() {
        lemma_unit_len_bounds(s, i);
        let next = i + unit_step(s, i, chars);
        lemma_words_left_le(s, next, chars, false);
        lemma_words_left_le(s, next, chars, true);
    }
}

/// Reads `data` as characters (`chars`) or bytes and counts its words; also
/// tells whether the reading ends inside a word.
fn count_words_in_chunk(data: &[u8], chars: bool) -> (res: (usize, bool))
    ensures
        res.0 == words_left(data@, 0, chars, false),
        res.1 == ends_in_word(data@, 0, chars, false),
        res.0 <= data@.len(),
{
    let n = data.len();
    let mut count: usize = 0;
    let mut in_word = false;
    let mut i: usize = 0;
    proof {
        lemma_words_left_le(data@, 0, chars, false);
    }
    while i < n
        invariant
            n == data@.len(),
            i <= n,
            count <= i,
            in_word ==> count >= 1,
            count + words_left(data@, i as int, chars, in_word) - (if in_word { 1int } else { 0int })
                == words_left(data@, 0, chars, false),
            ends_in_word(data@, i as int, chars, in_word) == ends_in_word(data@, 0, chars, false),
        decreases n - i,
    {
        proof {
            lemma_unit_len_bounds(data@, i as int);
        }
        let space = unit_space_at(data, i, chars);
        let adv: usize = if chars {
            let (l, _) = unit_len_at(data, i);
            if l > 0 {
                l
            } else {
                1
            }
        } else {
            1
        };
        if space {
            in_word = false;
        } else if !in_word {
            count = count + 1;
            in_word = true;
        }
        i = i + adv;
    }
    (count, in_word)
}

/// Whether the unit at `i` of `data` is whitespace.
fn unit_space_at(data: &[u8], i: usize, chars: bool) -> (res: bool)
    requires
        i < data@.len(),
    ensures
        res == unit_is_space(data@, i as int, chars),
{
    if chars {
        let (l, cp) = unit_len_at(data, i);
        l > 0 && unicode_space(cp)
    } else {
        ascii_space(data[i])
    }
}

/// Number of words in `data`: maximal runs of non-whitespace, where
/// whitespace is Unicode whitespace when `data` is well-formed UTF-8 and
/// ASCII whitespace otherwise.
pub fn count_all_words(data: &[u8]) -> (res: usize)
    ensures
        res == word_count(data@),
{
    let chars = is_valid_utf8(data);
    proof {
        lemma_words_left(data@, 0, chars, -1);
    }
    if data.len() < crate::count::PARALLEL_THRESHOLD || data.len() > usize::MAX
        - crate::count::CHUNK_SIZE {
        let (c, _) = count_words_in_chunk(data, chars);
        return c;
    }
    let bounds = crate::count::find_utf8_chunk_boundaries(data, crate::count::CHUNK_SIZE);
    let piece_words = |lo: usize, hi: usize| -> (r: (usize, bool))
        requires
            lo <= hi <= data@.len(),
        ensures
            r.0 == words_left(data@.subrange(lo as int, hi as int), 0, chars, false),
            r.1 == ends_in_word(data@.subrange(lo as int, hi as int), 0, chars, false),
            r.0 <= hi - lo,
        {
            let piece = &data[lo..hi];
            assert(piece@ =~= data@.subrange(lo as int, hi as int));
            count_words_in_chunk(piece, chars)
        };
    let counts = crate::parallel::map_pieces(&bounds, piece_words);
    let mut total: usize = 0;
    let mut in_word = false;
    let mut j: usize = 0;
    let m = bounds.len();
    assert(data@.subrange(0, 0) =~= Seq::<u8>::empty());
    while j + 1 < m
        invariant
            m == bounds@.len(),
            crate::count::is_cut(bounds@, data@.len() as int),
            forall|k: int| 0 < k < bounds@.len() - 1 ==> crate::text::starts_clean(#[trigger] tail(data@, bounds@[k] as int)),
            j < m,
            counts@.len() == m - 1,
            forall|k: int| 0 <= k < m - 1 ==> (#[trigger] counts@[k]).0 == words_left(
                data@.subrange(bounds@[k] as int, bounds@[k + 1] as int), 0, chars, false),
            forall|k: int| 0 <= k < m - 1 ==> (#[trigger] counts@[k]).1 == ends_in_word(
                data@.subrange(bounds@[k] as int, bounds@[k + 1] as int), 0, chars, false),
            forall|k: int| 0 <= k < m - 1 ==> (#[trigger] counts@[k]).0 <= bounds@[k + 1] - bounds@[k],
            total <= bounds@[j as int],
            in_word ==> total >= 1,
            total == words_left(data@.subrange(0, bounds@[j as int] as int), 0, chars, false),
            in_word == ends_in_word(data@.subrange(0, bounds@[j as int] as int), 0, chars, false),
        decreases m - j,
    {
        let lo = bounds[j];
        let hi = bounds[j + 1];
        assert(lo < hi);
        assert(hi <= data@.len()) by {
            if j + 1 < m - 1 {
                assert(bounds@[j + 1] < bounds@[m - 1]);
            }
        }
        let piece = &data[lo..hi];
        let (c, ends) = counts[j];
        let starts_word = !unit_space_at(piece, 0, chars);
        proof {
            let a = data@.subrange(0, lo as int);
            let b = data@.subrange(lo as int, hi as int);
            assert(a + b =~= data@.subrange(0, hi as int));
            assert(piece@ =~= b);
            if j > 0 {
                assert(crate::text::starts_clean(tail(data@, lo as int)));
                assert(b[0] == tail(data@, lo as int)[0]);
                lemma_words_concat(a, b, chars);
                lemma_ends_in_word_indep(b, 0, chars, in_word, false);
            } else {
                assert(a =~= Seq::<u8>::empty());
                assert(a + b =~= b);
            }
            lemma_words_left_le(data@.subrange(0, hi as int), 0, chars, false);
        }
        if in_word && starts_word {
            total = total + c - 1;
        } else {
            total = total + c;
        }
        in_word = ends;
        j = j + 1;
    }
    assert(data@.subrange(0, data@.len() as int) =~= data@);
    total
}


/// The words of `s` as text.
pub open spec fn word_texts(s: Seq<u8>) -> Seq<Seq<char>> {
    words(s).map_values(|w: Seq<u8>| decode_utf8(w))
}

/// Number of distinct words of `s` when it is well-formed UTF-8 (words split
/// at Unicode whitespace); 0 otherwise.
pub open spec fn unique_word_count(s: Seq<u8>) -> nat {
    if valid_utf8(s) {
        word_texts(s).to_set().len()
    } else {
        0
    }
}

/// `String::from_utf8_lossy`, which for well-formed UTF-8 gives the text
/// those bytes encode; the contract restates that documented behaviour and
/// nothing about it is proved here.
#[verifier::external_body]
pub(crate) fn text_of(bytes: &[u8]) -> (res: String)
    requires
        valid_utf8(bytes@),
    ensures
        res@ == decode_utf8(bytes@),
{
    String::from_utf8_lossy(bytes).into_owned()
}

proof fn lemma_one_char_valid(s: Seq<u8>, k: int)
    requires
        0 <= k < s.len(),
        unit_len(s, k) > 0,
    ensures
        valid_utf8(s.subrange(k, k + unit_len(s, k))),
{
    lemma_unit_len_bounds(s, k);
    let l = unit_len(s, k);
    let c = s.subrange(k, k + l);
    let t = tail(s, k);
    assert(c =~= t.subrange(0, l));
    assert forall|j: int| 0 <= j < l implies c[j] == t[j] by {}
    assert(valid_first_scalar(c));
    assert(vstd::utf8::pop_first_scalar(c) =~= Seq::<u8>::empty());
    reveal_with_fuel(valid_utf8, 2);
}

proof fn lemma_extend_valid(s: Seq<u8>, lo: int, k: int)
    requires
        0 <= lo <= k < s.len(),
        unit_len(s, k) > 0,
        valid_utf8(s.subrange(lo, k)),
    ensures
        valid_utf8(s.subrange(lo, k + unit_len(s, k))),
{
    lemma_unit_len_bounds(s, k);
    lemma_one_char_valid(s, k);
    vstd::utf8::valid_utf8_concat(s.subrange(lo, k), s.subrange(k, k + unit_len(s, k)));
    assert(s.subrange(lo, k) + s.subrange(k, k + unit_len(s, k)) =~= s.subrange(lo, k + unit_len(s, k)));
}

/// Whether `v` holds, in order, the texts that the byte strings `ws` encode.
pub open spec fn texts_of(v: Seq<String>, ws: Seq<Seq<u8>>) -> bool {
    &&& v.len() == ws.len()
    &&& forall|k: int| 0 <= k < v.len() ==> (#[trigger] v[k])@ == decode_utf8(ws[k])
}

/// The words of the well-formed UTF-8 `data`, as text, in order.
fn word_strings(data: &[u8]) -> (res: Vec<String>)
    requires
        valid_utf8(data@),
    ensures
        texts_of(res@, words(data@)),
{
    let n = data.len();
    let mut out: Vec<String> = Vec::new();
    let mut i: usize = 0;
    let mut start: usize = 0;
    let mut in_word = false;
    let ghost mut found: Seq<Seq<u8>> = Seq::empty();
    assert(tail(data@, 0) =~= data@);
    assert(found + words_from(data@, 0, true, -1) =~= words(data@));
    while i < n
        invariant
            n == data@.len(),
            i <= n,
            valid_utf8(tail(data@, i as int)),
            in_word ==> start < i && valid_utf8(data@.subrange(start as int, i as int)),
            found + words_from(data@, i as int, true, if in_word { start as int } else { -1 })
                == words(data@),
            texts_of(out@, found),
        decreases n - i,
    {
        let (l, cp) = unit_len_at(data, i);
        proof {
            lemma_valid_step(data@, i as int);
            lemma_unit_len_bounds(data@, i as int);
        }
        let space = unicode_space(cp);
        if space {
            if in_word {
                let word = &data[start..i];
                let text = text_of(word);
                proof {
                    assert(word@ =~= data@.subrange(start as int, i as int));
                    assert(found.push(word@) + words_from(data@, i + l, true, -1) =~= found + (seq![word@] + words_from(data@, i + l, true, -1)));
                    found = found.push(word@);
                }
                out.push(text);
            }
            in_word = false;
        } else {
            proof {
                if in_word {
                    lemma_extend_valid(data@, start as int, i as int);
                } else {
                    lemma_one_char_valid(data@, i as int);
                }
            }
            if !in_word {
                start = i;
                in_word = true;
            }
        }
        i = i + l;
    }
    if in_word {
        let word = &data[start..n];
        let text = text_of(word);
        proof {
            assert(word@ =~= data@.subrange(start as int, n as int));
            found = found.push(word@);
        }
        out.push(text);
    }
    assert(found =~= words(data@));
    out
}

/// Adds the texts of `v` to `set`.
fn insert_texts(set: &mut StringHashSet, v: &Vec<String>)
    ensures
        final(set)@ == old(set)@ + v@.map_values(|x: String| x@).to_set(),
{
    let ghost f = |x: String| x@;
    let mut i: usize = 0;
    assert(v@.subrange(0, 0).map_values(f).to_set() =~= Set::<Seq<char>>::empty());
    assert(old(set)@ + Set::<Seq<char>>::empty() =~= old(set)@);
    while i < v.len()
        invariant
            i <= v@.len(),
            f == (|x: String| x@),
            set@ == old(set)@ + v@.subrange(0, i as int).map_values(f).to_set(),
        decreases v@.len() - i,
    {
        let text = v[i].clone();
        let ghost before = v@.subrange(0, i as int).map_values(f);
        proof {
            assert(v@.subrange(0, i + 1).map_values(f) =~= before.push(v@[i as int]@));
            before.lemma_push_to_set_commute(v@[i as int]@);
        }
        set.insert(text);
        assert(set@ =~= old(set)@ + v@.subrange(0, i + 1).map_values(f).to_set());
        i = i + 1;
    }
    assert(v@.subrange(0, v@.len() as int) =~= v@);
}

/// The first byte of well-formed UTF-8 does not continue a character.
proof fn lemma_valid_starts_clean(b: Seq<u8>)
    requires
        valid_utf8(b),
    ensures
        crate::text::starts_clean(b),
{
    if b.len() > 0 {
        lemma_valid_step(b, 0);
        assert(tail(b, 0) =~= b);
    }
}

/// A piece of well-formed UTF-8 that starts and ends at line starts is
/// well-formed UTF-8.
proof fn lemma_piece_valid(s: Seq<u8>, lo: int, hi: int)
    requires
        valid_utf8(s),
        0 <= lo < hi <= s.len(),
        lo > 0 ==> s[lo - 1] == crate::count::NEWLINE,
        hi < s.len() ==> s[hi - 1] == crate::count::NEWLINE,
    ensures
        valid_utf8(s.subrange(lo, hi)),
{
    assert(tail(s, 0) =~= s);
    if lo > 0 {
        lemma_valid_cut_from(s, 0, lo);
    }
    if hi < s.len() {
        lemma_valid_cut_from(s, lo, hi);
    } else {
        assert(s.subrange(lo, hi) =~= tail(s, lo));
    }
}

/// Number of distinct words of `data`, split at Unicode whitespace; 0 when
/// `data` is not well-formed UTF-8. A large buffer has the words of its
/// pieces of whole lines read in parallel.
pub fn count_unique_words(data: &[u8]) -> (res: usize)
    ensures
        res == unique_word_count(data@),
{
    if !is_valid_utf8(data) {
        return 0;
    }
    let ghost f = |x: String| x@;
    let ghost d = |w: Seq<u8>| decode_utf8(w);
    let mut set = StringHashSet::new();
    assert(Set::<Seq<char>>::empty() + word_texts(data@).to_set() =~= word_texts(data@).to_set());
    if data.len() < crate::count::PARALLEL_THRESHOLD || data.len() > usize::MAX
        - crate::count::CHUNK_SIZE {
        let texts = word_strings(data);
        insert_texts(&mut set, &texts);
        assert(texts@.map_values(f) =~= word_texts(data@));
        return set.len();
    }
    let bounds = crate::lines::find_line_boundaries(data, crate::count::CHUNK_SIZE);
    let m = bounds.len();
    assert forall|k: int| 0 <= k < m - 1 implies valid_utf8(
        #[trigger] data@.subrange(bounds@[k] as int, bounds@[k + 1] as int),
    ) by {
        if k + 1 < m - 1 {
            assert(bounds@[k + 1] < bounds@[m - 1]);
            assert(crate::lines::at_line_start(data@, bounds@[k + 1] as int));
        }
        assert(crate::lines::at_line_start(data@, bounds@[k] as int));
        lemma_piece_valid(data@, bounds@[k] as int, bounds@[k + 1] as int);
    }
    let piece_words = |lo: usize, hi: usize| -> (r: Vec<String>)
        requires
            lo <= hi <= data@.len(),
            valid_utf8(data@.subrange(lo as int, hi as int)),
        ensures
            texts_of(r@, words(data@.subrange(lo as int, hi as int))),
        {
            let piece = &data[lo..hi];
            assert(piece@ =~= data@.subrange(lo as int, hi as int));
            word_strings(piece)
        };
    let parts = crate::parallel::map_pieces(&bounds, piece_words);
    let mut j: usize = 0;
    assert(data@.subrange(0, 0) =~= Seq::<u8>::empty());
    assert(words_from(Seq::<u8>::empty(), 0, true, -1) =~= Seq::<Seq<u8>>::empty());
    assert(Seq::<Seq<u8>>::empty().map_values(d).to_set() =~= Set::<Seq<char>>::empty());
    while j + 1 < m
        invariant
            m == bounds@.len(),
            parts@.len() == m - 1,
            valid_utf8(data@),
            crate::count::is_cut(bounds@, data@.len() as int),
            forall|k: int| 0 <= k < bounds@.len() - 1 ==> crate::lines::at_line_start(data@, #[trigger] bounds@[k] as int),
            forall|k: int| 0 <= k < m - 1 ==> valid_utf8(#[trigger] data@.subrange(bounds@[k] as int, bounds@[k + 1] as int)),
            forall|k: int| 0 <= k < m - 1 ==> texts_of(#[trigger] parts@[k]@, words(data@.subrange(bounds@[k] as int, bounds@[k + 1] as int))),
            f == (|x: String| x@),
            d == (|w: Seq<u8>| decode_utf8(w)),
            j < m,
            set@ == words_from(data@.subrange(0, bounds@[j as int] as int), 0, true, -1).map_values(d).to_set(),
        decreases m - j,
    {
        let lo = bounds[j];
        let hi = bounds[j + 1];
        assert(lo < hi);
        assert(hi <= data@.len()) by {
            if j + 1 < m - 1 {
                assert(bounds@[j + 1] < bounds@[m - 1]);
            }
        }
        let part = &parts[j];
        proof {
            let a = data@.subrange(0, lo as int);
            let b = data@.subrange(lo as int, hi as int);
            assert(a + b =~= data@.subrange(0, hi as int));
            assert(crate::lines::at_line_start(data@, lo as int));
            if lo > 0 {
                assert(a.last() == data@[lo - 1]);
            }
            assert(valid_utf8(b));
            lemma_valid_starts_clean(b);
            lemma_words_split(a, b, true);
            let wa = words_from(a, 0, true, -1);
            let wb = words_from(b, 0, true, -1);
            assert(texts_of(part@, wb));
            assert(part@.map_values(f) =~= wb.map_values(d));
            assert((wa + wb).map_values(d) =~= wa.map_values(d) + wb.map_values(d));
            vstd::seq_lib::seq_to_set_distributes_over_add(wa.map_values(d), wb.map_values(d));
        }
        insert_texts(&mut set, part);
        j = j + 1;
    }
    assert(data@.subrange(0, data@.len() as int) =~= data@);
    set.len()
}

/// There are never more distinct words than words.
pub proof fn lemma_unique_le_words(s: Seq<u8>)
    ensures
        unique_word_count(s) <= word_count(s),
{
    if valid_utf8(s) {
        word_texts(s).lemma_cardinality_of_set();
    }
}

proof fn lemma_words_from_shift(a: Seq<u8>, b: Seq<u8>, j: int, chars: bool, start: int)
    requires
        0 <= j <= b.len(),
        -1 <= start <= j,
    ensures
        words_from(a + b, a.len() + j, chars, if start >= 0 { a.len() + start } else { -1 })
            == words_from(b, j, chars, start),
    decreases b.len() - j,
{
    let s = a + b;
    let sh = if start >= 0 {
        a.len() + start
    } else {
        -1
    };
    if j < b.len() {
        crate::text::lemma_unit_len_shift(a, b, j);
        lemma_unit_len_bounds(b, j);
        assert(s[a.len() + j] == b[j]);
        let next = j + unit_step(b, j, chars);
        if unit_is_space(b, j, chars) {
            lemma_words_from_shift(a, b, next, chars, -1);
            if start >= 0 {
                assert(s.subrange(sh, a.len() + j) =~= b.subrange(start, j));
            }
        } else {
            let ns = if start >= 0 {
                start
            } else {
                j
            };
            lemma_words_from_shift(a, b, next, chars, ns);
        }
    } else if start >= 0 {
        assert(s.subrange(sh, s.len() as int) =~= b.subrange(start, b.len() as int));
    }
}

proof fn lemma_words_from_concat(a: Seq<u8>, b: Seq<u8>, i: int, chars: bool, start: int)
    requires
        0 <= i <= a.len(),
        -1 <= start <= i,
        chars ==> crate::text::starts_clean(b),
        !ends_in_word(a, i, chars, start >= 0),
    ensures
        words_from(a + b, i, chars, start) == words_from(a, i, chars, start) + words_from(
            b,
            0,
            chars,
            -1,
        ),
    decreases a.len() - i,
{
    if i < a.len() {
        lemma_unit_concat(a, b, i, chars);
        lemma_unit_len_bounds(a, i);
        let next = i + unit_step(a, i, chars);
        if unit_is_space(a, i, chars) {
            lemma_words_from_concat(a, b, next, chars, -1);
            if start >= 0 {
                assert((a + b).subrange(start, i) =~= a.subrange(start, i));
                assert(seq![a.subrange(start, i)] + (words_from(a, next, chars, -1) + words_from(
                    b,
                    0,
                    chars,
                    -1,
                )) =~= (seq![a.subrange(start, i)] + words_from(a, next, chars, -1)) + words_from(
                    b,
                    0,
                    chars,
                    -1,
                ));
            }
        } else {
            let ns = if start >= 0 {
                start
            } else {
                i
            };
            lemma_words_from_concat(a, b, next, chars, ns);
        }
    } else {
        lemma_words_from_shift(a, b, 0, chars, -1);
        assert(words_from(a, i, chars, start) =~= Seq::<Seq<u8>>::empty());
        assert(words_from(a, i, chars, start) + words_from(b, 0, chars, -1) =~= words_from(
            b,
            0,
            chars,
            -1,
        ));
    }
}

/// A reading that has just passed a newline is between words.
proof fn lemma_newline_ends_word(a: Seq<u8>, chars: bool)
    requires
        a.len() > 0,
        a.last() == crate::count::NEWLINE,
    ensures
        !ends_in_word(a, 0, chars, false),
{
    let p = a.drop_last();
    let nl = seq![crate::count::NEWLINE];
    assert(p + nl =~= a);
    assert(tail(nl, 0) =~= nl);
    assert(nl[0] == 0x0a);
    assert(0x0au8 <= 0x7f ==> (0x0au8 & 0x7f) == 0x0au8) by (bit_vector);
    assert(unit_len(nl, 0) == 1);
    assert((0x0au8 & 0x7f) as u32 == 0x0a) by (bit_vector);
    assert(unit_scalar(nl, 0) == 0x0a);
    assert(unit_is_space(nl, 0, chars));
    assert(unit_step(nl, 0, chars) == 1);
    assert(!ends_in_word(nl, 1, chars, false));
    assert(!ends_in_word(nl, 0, chars, true));
    lemma_words_concat(p, nl, chars);
}

/// Words split piecewise: cut after a newline (and, when reading
/// characters, where no character continues), the words of the whole are
/// those of the first part followed by those of the second.
pub proof fn lemma_words_split(a: Seq<u8>, b: Seq<u8>, chars: bool)
    requires
        a.len() > 0 ==> a.last() == crate::count::NEWLINE,
        chars ==> crate::text::starts_clean(b),
    ensures
        words_from(a + b, 0, chars, -1) == words_from(a, 0, chars, -1) + words_from(b, 0, chars, -1),
{
    if a.len() > 0 {
        lemma_newline_ends_word(a, chars);
    }
    lemma_words_from_concat(a, b, 0, chars, -1);
}

/// In well-formed UTF-8, a newline ends a character: the bytes before and
/// after it are well-formed UTF-8 too.
proof fn lemma_valid_cut_from(s: Seq<u8>, i: int, k: int)
    requires
        0 <= i < k <= s.len(),
        valid_utf8(tail(s, i)),
        s[k - 1] == crate::count::NEWLINE,
    ensures
        valid_utf8(s.subrange(i, k)),
        valid_utf8(tail(s, k)),
    decreases k - i,
{
    lemma_valid_step(s, i);
    lemma_unit_len_bounds(s, i);
    let l = unit_len(s, i);
    let t = tail(s, i);
    lemma_one_char_valid(s, i);
    if i + l >= k {
        if i + l > k {
            assert(t[k - 1 - i] == s[k - 1]);
            assert(valid_first_scalar(t));
            assert(false);
        }
        assert(s.subrange(i, i + l) =~= s.subrange(i, k));
    } else {
        lemma_valid_cut_from(s, i + l, k);
        vstd::utf8::valid_utf8_concat(s.subrange(i, i + l), s.subrange(i + l, k));
        assert(s.subrange(i, i + l) + s.subrange(i + l, k) =~= s.subrange(i, k));
    }
}

proof fn lemma_words_from_newline(a: Seq<u8>, i: int, chars: bool, start: int)
    requires
        0 <= i <= a.len(),
        -1 <= start <= i,
    ensures
        words_from(a + seq![crate::count::NEWLINE], i, chars, start) == words_from(a, i, chars, start),
    decreases a.len() - i,
{
    let nl = seq![crate::count::NEWLINE];
    let s = a + nl;
    assert(nl[0] == 0x0a);
    if i < a.len() {
        lemma_unit_concat(a, nl, i, chars);
        lemma_unit_len_bounds(a, i);
        let next = i + unit_step(a, i, chars);
        if unit_is_space(a, i, chars) {
            lemma_words_from_newline(a, next, chars, -1);
            if start >= 0 {
                assert(s.subrange(start, i) =~= a.subrange(start, i));
            }
        } else {
            let ns = if start >= 0 {
                start
            } else {
                i
            };
            lemma_words_from_newline(a, next, chars, ns);
        }
    } else {
        assert(s[a.len() as int] == 0x0a);
        assert(tail(s, a.len() as int) =~= nl);
        assert(0x0au8 <= 0x7f ==> (0x0au8 & 0x7f) == 0x0au8) by (bit_vector);
        assert((0x0au8 & 0x7f) as u32 == 0x0a) by (bit_vector);
        assert(unit_len(s, a.len() as int) == 1);
        assert(unit_scalar(s, a.len() as int) == 0x0a);
        assert(unit_is_space(s, a.len() as int, chars));
        assert(unit_step(s, a.len() as int, chars) == 1);
        assert(words_from(s, a.len() + 1int, chars, -1) =~= Seq::<Seq<u8>>::empty());
        if start >= 0 {
            assert(s.subrange(start, a.len() as int) =~= a.subrange(start, a.len() as int));
            assert(seq![s.subrange(start, a.len() as int)] + Seq::<Seq<u8>>::empty() =~= seq![a.subrange(start, a.len() as int)]);
        }
    }
}

/// Repeating a text on a new line adds no new word: the distinct words of
/// `d`, a newline and `d` again are those of `d`; and there are never more of
/// them than words.
pub proof fn lemma_unique_words_repeat(d: Seq<u8>)
    ensures
        unique_word_count(d + seq![crate::count::NEWLINE] + d) == unique_word_count(d),
        unique_word_count(d) <= word_count(d),
{
    let nl = seq![crate::count::NEWLINE];
    let a = d + nl;
    let s = a + d;
    lemma_unique_le_words(d);
    assert(tail(nl, 0) =~= nl);
    assert(0x0au8 <= 0x7f ==> (0x0au8 & 0x7f) == 0x0au8) by (bit_vector);
    assert(unit_len(nl, 0) == 1);
    lemma_valid_step(nl, 0);
    assert(tail(nl, 1) =~= Seq::<u8>::empty());
    assert(valid_utf8(Seq::<u8>::empty()));
    assert(valid_utf8(nl));
    if valid_utf8(d) {
        vstd::utf8::valid_utf8_concat(d, nl);
        vstd::utf8::valid_utf8_concat(a, d);
        lemma_valid_starts_clean(d);
        assert(a.last() == crate::count::NEWLINE);
        lemma_words_split(a, d, true);
        lemma_words_from_newline(d, 0, true, -1);
        let w = words(d);
        let f = |x: Seq<u8>| decode_utf8(x);
        assert(words(s) == w + w);
        assert((w + w).map_values(f) =~= w.map_values(f) + w.map_values(f));
        vstd::seq_lib::seq_to_set_distributes_over_add(w.map_values(f), w.map_values(f));
        assert(w.map_values(f).to_set() + w.map_values(f).to_set() =~= w.map_values(f).to_set());
    } else {
        assert(s.len() > d.len());
        assert(s[d.len() as int] == crate::count::NEWLINE);
        assert(tail(s, 0) =~= s);
        if valid_utf8(s) {
            lemma_valid_cut_from(s, 0, d.len() + 1int);
            assert(tail(s, d.len() + 1int) =~= d);
        }
    }
}

/// The reading of one character that is not whitespace at the start of the
/// encoding of `w`, and of the rest after it.
proof fn lemma_encoded_first_unit(w: Seq<char>)
    requires
        w.len() > 0,
    ensures
        ({
            let e = encode_utf8(w);
            let h = vstd::utf8::encode_scalar(w[0] as u32);
            &&& e == h + encode_utf8(w.drop_first())
            &&& h.len() > 0
            &&& unit_len(e, 0) == h.len()
            &&& unit_scalar(e, 0) == w[0] as u32
            &&& unit_step(e, 0, true) == h.len()
            &&& unit_is_space(e, 0, true) == is_unicode_space(w[0] as u32)
        }),
{
    let e = encode_utf8(w);
    vstd::utf8::encode_utf8_first_scalar(w);
    assert(tail(e, 0) =~= e);
    assert(e == vstd::utf8::encode_scalar(w[0] as u32) + encode_utf8(w.drop_first()));
}

proof fn lemma_nonspace_words(w: Seq<char>, in_word: bool)
    requires
        forall|k: int| 0 <= k < w.len() ==> !is_unicode_space(#[trigger] w[k] as u32),
    ensures
        words_left(encode_utf8(w), 0, true, in_word) == (if w.len() > 0 || in_word { 1int } else { 0int }),
        ends_in_word(encode_utf8(w), 0, true, in_word) == (w.len() > 0 || in_word),
    decreases w.len(),
{
    if w.len() > 0 {
        let rest = w.drop_first();
        assert forall|k: int| 0 <= k < rest.len() implies !is_unicode_space(#[trigger] rest[k] as u32) by {
            assert(rest[k] == w[k + 1]);
        }
        lemma_encoded_first_unit(w);
        assert(!is_unicode_space(w[0] as u32));
        let h = vstd::utf8::encode_scalar(w[0] as u32);
        lemma_nonspace_words(rest, true);
        lemma_words_left_shift(h, encode_utf8(rest), 0, true, true);
    } else {
        assert(encode_utf8(w).len() == 0);
    }
}

/// Every character of Unicode's White_Space list (U+0009 to U+000D, U+0020,
/// U+0085, U+00A0, U+1680, U+2000 to U+200A, U+2028, U+2029, U+202F, U+205F,
/// U+3000) separates words: two runs of characters that are not whitespace,
/// joined by one of them, are two words.
pub proof fn lemma_white_space_separates(w1: Seq<char>, sp: char, w2: Seq<char>)
    requires
        w1.len() > 0,
        w2.len() > 0,
        forall|k: int| 0 <= k < w1.len() ==> !is_unicode_space(#[trigger] w1[k] as u32),
        forall|k: int| 0 <= k < w2.len() ==> !is_unicode_space(#[trigger] w2[k] as u32),
        ({
            let c = sp as u32;
            ||| 0x09 <= c <= 0x0d
            ||| c == 0x20
            ||| c == 0x85
            ||| c == 0xa0
            ||| c == 0x1680
            ||| 0x2000 <= c <= 0x200a
            ||| c == 0x2028
            ||| c == 0x2029
            ||| c == 0x202f
            ||| c == 0x205f
            ||| c == 0x3000
        }),
    ensures
        word_count(encode_utf8(w1 + seq![sp] + w2)) == 2,
{
    let a = encode_utf8(w1);
    let one = seq![sp];
    let sb = encode_utf8(one);
    let b = encode_utf8(w2);
    crate::codec::lemma_encode_concat(w1, one);
    crate::codec::lemma_encode_concat(w1 + one, w2);
    let s = encode_utf8(w1 + one + w2);
    assert(s == a + sb + b);
    vstd::utf8::encode_utf8_valid_utf8(w1 + one + w2);
    vstd::utf8::encode_utf8_valid_utf8(one);
    vstd::utf8::encode_utf8_valid_utf8(w2);
    lemma_valid_starts_clean(sb);
    lemma_valid_starts_clean(b);
    lemma_nonspace_words(w1, false);
    lemma_nonspace_words(w2, false);
    lemma_encoded_first_unit(one);
    assert(one[0] == sp);
    assert(one.drop_first() =~= Seq::<char>::empty());
    assert(encode_utf8(Seq::<char>::empty()) =~= Seq::<u8>::empty());
    assert(sb =~= vstd::utf8::encode_scalar(sp as u32));
    assert(is_unicode_space(sp as u32));
    assert(unit_is_space(sb, 0, true));
    assert(words_left(sb, sb.len() as int, true, false) == 0);
    assert(!ends_in_word(sb, sb.len() as int, true, false));
    assert(words_left(sb, 0, true, false) == 0);
    assert(!ends_in_word(sb, 0, true, ends_in_word(a, 0, true, false)));
    lemma_words_concat(a, sb, true);
    lemma_words_concat(a + sb, b, true);
    lemma_words_left(s, 0, true, -1);
}

/// Characters outside Unicode's White_Space list do not separate words: a
/// non-empty run of them is one word.
pub proof fn lemma_non_white_space_joins(w: Seq<char>)
    requires
        w.len() > 0,
        forall|k: int|
            0 <= k < w.len() ==> {
                let c = #[trigger] w[k] as u32;
                !(0x09 <= c <= 0x0d || c == 0x20 || c == 0x85 || c == 0xa0 || c == 0x1680 || (0x2000
                    <= c <= 0x200a) || c == 0x2028 || c == 0x2029 || c == 0x202f || c == 0x205f || c
                    == 0x3000)
            },
    ensures
        word_count(encode_utf8(w)) == 1,
{
    assert forall|k: int| 0 <= k < w.len() implies !is_unicode_space(#[trigger] w[k] as u32) by {}
    lemma_nonspace_words(w, false);
    vstd::utf8::encode_utf8_valid_utf8(w);
    lemma_words_left(encode_utf8(w), 0, true, -1);
}

} // verus!
