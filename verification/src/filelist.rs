//! Lists of file names separated by NUL bytes, as `--files0-from` reads them.

use vstd::prelude::*;
use vstd::utf8::{decode_utf8, valid_utf8};
use crate::search::find_byte;
use crate::words::{is_valid_utf8, text_of};

verus! {

/// Index of the first NUL byte at or after `i` in `s`, or the length of `s`.
pub open spec fn next_nul(s: Seq<u8>, i: int) -> int
    decreases s.len() - i,
{
    if i < 0 || i >= s.len() {
        s.len() as int
    } else if s[i] == 0 {
        i
    } else {
        next_nul(s, i + 1)
    }
}

/// The next NUL byte lies between `i` and the end, and none comes before it.
pub proof fn lemma_next_nul(s: Seq<u8>, i: int)
    requires
        0 <= i <= s.len(),
    ensures
        i <= next_nul(s, i) <= s.len(),
        next_nul(s, i) < s.len() ==> s[next_nul(s, i)] == 0,
        forall|k: int| i <= k < next_nul(s, i) ==> s[k] != 0,
    decreases s.len() - i,
{
    if i < s.len() && s[i] != 0 {
        lemma_next_nul(s, i + 1);
    }
}

/// The non-empty pieces of `s` between NUL bytes, from `i` on.
pub open spec fn nul_fields_from(s: Seq<u8>, i: int) -> Seq<Seq<u8>>
    decreases s.len() - i,
{
    if i < 0 || i >= s.len() {
        Seq::empty()
    } else {
        proof {
            lemma_next_nul(s, i);
        }
        let e = next_nul(s, i);
        let rest = if e < s.len() {
            nul_fields_from(s, e + 1)
        } else {
            Seq::empty()
        };
        if e > i {
            seq![s.subrange(i, e)] + rest
        } else {
            rest
        }
    }
}

/// The file names that a NUL-separated list `s` holds: its non-empty pieces
/// that are well-formed UTF-8, as text, in order.
pub open spec fn file_names(s: Seq<u8>) -> Seq<Seq<char>> {
    nul_fields_from(s, 0).filter(|f: Seq<u8>| valid_utf8(f)).map_values(|f: Seq<u8>| decode_utf8(f))
}

/// The views of a list of strings.
pub open spec fn texts(v: Seq<String>) -> Seq<Seq<char>> {
    v.map_values(|x: String| x@)
}

/// The file names listed in `content`: the pieces between NUL bytes that are
/// neither empty nor malformed UTF-8.
pub fn parse_file_list(content: &[u8]) -> (res: Vec<String>)
    ensures
        texts(res@) == file_names(content@),
{
    let n = content.len();
    let mut out: Vec<String> = Vec::new();
    let mut pos: usize = 0;
    let ghost valid = |f: Seq<u8>| valid_utf8(f);
    let ghost dec = |f: Seq<u8>| decode_utf8(f);
    let ghost mut done: Seq<Seq<u8>> = Seq::empty();
    assert(done + nul_fields_from(content@, 0) =~= nul_fields_from(content@, 0));
    proof {
        reveal(Seq::filter);
    }
    assert(texts(out@) =~= done.filter(valid).map_values(dec));
    while pos < n
        invariant
            n == content@.len(),
            pos <= n,
            valid == (|f: Seq<u8>| valid_utf8(f)),
            dec == (|f: Seq<u8>| decode_utf8(f)),
            done + nul_fields_from(content@, pos as int) == nul_fields_from(content@, 0),
            texts(out@) == done.filter(valid).map_values(dec),
        decreases n - pos,
    {
        let rest = &content[pos..n];
        let e = match find_byte(0, rest) {
            Some(k) => pos + k,
            None => n,
        };
        proof {
            lemma_next_nul(content@, pos as int);
            let ne = next_nul(content@, pos as int);
            assert forall|k: int| pos <= k < n implies rest@[k - pos] == content@[k] by {}
            if ne < e {
                assert(content@[ne] == 0);
                assert(rest@[ne - pos] == content@[ne]);
            }
            if e < ne {
                assert(rest@[e - pos] == content@[e as int]);
            }
            assert(e == ne);
        }
        let ghost later = if e < n {
            nul_fields_from(content@, e + 1)
        } else {
            Seq::<Seq<u8>>::empty()
        };
        if e > pos {
            let piece = &content[pos..e];
            let ghost f = content@.subrange(pos as int, e as int);
            assert(piece@ =~= f);
            proof {
                assert(done.push(f) + later =~= done + (seq![f] + later));
                done.lemma_filter_push(f, valid);
            }
            if is_valid_utf8(piece) {
                let name = text_of(piece);
                proof {
                    done.filter(valid).lemma_push_map_commute(dec, f);
                    out@.lemma_push_map_commute(|x: String| x@, name);
                }
                out.push(name);
            }
            proof {
                done = done.push(f);
            }
        }
        pos = if e < n {
            e + 1
        } else {
            n
        };
    }
    assert(done =~= nul_fields_from(content@, 0));
    out
}

} // verus!
