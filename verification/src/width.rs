//! Display columns, as `wc -L` counts them.

use vstd::prelude::*;
use vstd::utf8::{encode_scalar, encode_utf8};
use crate::text::{lemma_unit_len_bounds, step, tail, unit_len, unit_len_at, unit_scalar};

verus! {

/// Whether `cp` takes no column: a control character, a nonspacing or
/// enclosing mark, a format character other than the soft hyphen, or a
/// Hangul medial or final jamo (U+1160 to U+11FF).
pub open spec fn is_zero_width(cp: u32) -> bool {
    ||| cp <= 0x1f
    ||| 0x7f <= cp <= 0x9f
    ||| 0x300 <= cp <= 0x36f
    ||| 0x483 <= cp <= 0x489
    ||| 0x591 <= cp <= 0x5bd
    ||| cp == 0x5bf
    ||| 0x5c1 <= cp <= 0x5c2
    ||| 0x5c4 <= cp <= 0x5c5
    ||| cp == 0x5c7
    ||| 0x600 <= cp <= 0x605
    ||| 0x610 <= cp <= 0x61a
    ||| cp == 0x61c
    ||| 0x64b <= cp <= 0x65f
    ||| cp == 0x670
    ||| 0x6d6 <= cp <= 0x6dd
    ||| 0x6df <= cp <= 0x6e4
    ||| 0x6e7 <= cp <= 0x6e8
    ||| 0x6ea <= cp <= 0x6ed
    ||| cp == 0x70f
    ||| cp == 0x711
    ||| 0x730 <= cp <= 0x74a
    ||| 0x7a6 <= cp <= 0x7b0
    ||| 0x7eb <= cp <= 0x7f3
    ||| cp == 0x7fd
    ||| 0x816 <= cp <= 0x819
    ||| 0x81b <= cp <= 0x823
    ||| 0x825 <= cp <= 0x827
    ||| 0x829 <= cp <= 0x82d
    ||| 0x859 <= cp <= 0x85b
    ||| 0x890 <= cp <= 0x891
    ||| 0x898 <= cp <= 0x89f
    ||| 0x8ca <= cp <= 0x902
    ||| cp == 0x93a
    ||| cp == 0x93c
    ||| 0x941 <= cp <= 0x948
    ||| cp == 0x94d
    ||| 0x951 <= cp <= 0x957
    ||| 0x962 <= cp <= 0x963
    ||| cp == 0x981
    ||| cp == 0x9bc
    ||| 0x9c1 <= cp <= 0x9c4
    ||| cp == 0x9cd
    ||| 0x9e2 <= cp <= 0x9e3
    ||| cp == 0x9fe
    ||| 0xa01 <= cp <= 0xa02
    ||| cp == 0xa3c
    ||| 0xa41 <= cp <= 0xa42
    ||| 0xa47 <= cp <= 0xa48
    ||| 0xa4b <= cp <= 0xa4d
    ||| cp == 0xa51
    ||| 0xa70 <= cp <= 0xa71
    ||| cp == 0xa75
    ||| 0xa81 <= cp <= 0xa82
    ||| cp == 0xabc
    ||| 0xac1 <= cp <= 0xac5
    ||| 0xac7 <= cp <= 0xac8
    ||| cp == 0xacd
    ||| 0xae2 <= cp <= 0xae3
    ||| 0xafa <= cp <= 0xaff
    ||| cp == 0xb01
    ||| cp == 0xb3c
    ||| cp == 0xb3f
    ||| 0xb41 <= cp <= 0xb44
    ||| cp == 0xb4d
    ||| 0xb55 <= cp <= 0xb56
    ||| 0xb62 <= cp <= 0xb63
    ||| cp == 0xb82
    ||| cp == 0xbc0
    ||| cp == 0xbcd
    ||| cp == 0xc00
    ||| cp == 0xc04
    ||| cp == 0xc3c
    ||| 0xc3e <= cp <= 0xc40
    ||| 0xc46 <= cp <= 0xc48
    ||| 0xc4a <= cp <= 0xc4d
    ||| 0xc55 <= cp <= 0xc56
    ||| 0xc62 <= cp <= 0xc63
    ||| cp == 0xc81
    ||| cp == 0xcbc
    ||| cp == 0xcbf
    ||| cp == 0xcc6
    ||| 0xccc <= cp <= 0xccd
    ||| 0xce2 <= cp <= 0xce3
    ||| 0xd00 <= cp <= 0xd01
    ||| 0xd3b <= cp <= 0xd3c
    ||| 0xd41 <= cp <= 0xd44
    ||| cp == 0xd4d
    ||| 0xd62 <= cp <= 0xd63
    ||| cp == 0xd81
    ||| cp == 0xdca
    ||| 0xdd2 <= cp <= 0xdd4
    ||| cp == 0xdd6
    ||| cp == 0xe31
    ||| 0xe34 <= cp <= 0xe3a
    ||| 0xe47 <= cp <= 0xe4e
    ||| cp == 0xeb1
    ||| 0xeb4 <= cp <= 0xebc
    ||| 0xec8 <= cp <= 0xecd
    ||| 0xf18 <= cp <= 0xf19
    ||| cp == 0xf35
    ||| cp == 0xf37
    ||| cp == 0xf39
    ||| 0xf71 <= cp <= 0xf7e
    ||| 0xf80 <= cp <= 0xf84
    ||| 0xf86 <= cp <= 0xf87
    ||| 0xf8d <= cp <= 0xf97
    ||| 0xf99 <= cp <= 0xfbc
    ||| cp == 0xfc6
    ||| 0x102d <= cp <= 0x1030
    ||| 0x1032 <= cp <= 0x1037
    ||| 0x1039 <= cp <= 0x103a
    ||| 0x103d <= cp <= 0x103e
    ||| 0x1058 <= cp <= 0x1059
    ||| 0x105e <= cp <= 0x1060
    ||| 0x1071 <= cp <= 0x1074
    ||| cp == 0x1082
    ||| 0x1085 <= cp <= 0x1086
    ||| cp == 0x108d
    ||| cp == 0x109d
    ||| 0x1160 <= cp <= 0x11ff
    ||| 0x135d <= cp <= 0x135f
    ||| 0x1712 <= cp <= 0x1714
    ||| 0x1732 <= cp <= 0x1733
    ||| 0x1752 <= cp <= 0x1753
    ||| 0x1772 <= cp <= 0x1773
    ||| 0x17b4 <= cp <= 0x17b5
    ||| 0x17b7 <= cp <= 0x17bd
    ||| cp == 0x17c6
    ||| 0x17c9 <= cp <= 0x17d3
    ||| cp == 0x17dd
    ||| 0x180b <= cp <= 0x180f
    ||| 0x1885 <= cp <= 0x1886
    ||| cp == 0x18a9
    ||| 0x1920 <= cp <= 0x1922
    ||| 0x1927 <= cp <= 0x1928
    ||| cp == 0x1932
    ||| 0x1939 <= cp <= 0x193b
    ||| 0x1a17 <= cp <= 0x1a18
    ||| cp == 0x1a1b
    ||| cp == 0x1a56
    ||| 0x1a58 <= cp <= 0x1a5e
    ||| cp == 0x1a60
    ||| cp == 0x1a62
    ||| 0x1a65 <= cp <= 0x1a6c
    ||| 0x1a73 <= cp <= 0x1a7c
    ||| cp == 0x1a7f
    ||| 0x1ab0 <= cp <= 0x1ace
    ||| 0x1b00 <= cp <= 0x1b03
    ||| cp == 0x1b34
    ||| 0x1b36 <= cp <= 0x1b3a
    ||| cp == 0x1b3c
    ||| cp == 0x1b42
    ||| 0x1b6b <= cp <= 0x1b73
    ||| 0x1b80 <= cp <= 0x1b81
    ||| 0x1ba2 <= cp <= 0x1ba5
    ||| 0x1ba8 <= cp <= 0x1ba9
    ||| 0x1bab <= cp <= 0x1bad
    ||| cp == 0x1be6
    ||| 0x1be8 <= cp <= 0x1be9
    ||| cp == 0x1bed
    ||| 0x1bef <= cp <= 0x1bf1
    ||| 0x1c2c <= cp <= 0x1c33
    ||| 0x1c36 <= cp <= 0x1c37
    ||| 0x1cd0 <= cp <= 0x1cd2
    ||| 0x1cd4 <= cp <= 0x1ce0
    ||| 0x1ce2 <= cp <= 0x1ce8
    ||| cp == 0x1ced
    ||| cp == 0x1cf4
    ||| 0x1cf8 <= cp <= 0x1cf9
    ||| 0x1dc0 <= cp <= 0x1dff
    ||| 0x200b <= cp <= 0x200f
    ||| 0x202a <= cp <= 0x202e
    ||| 0x2060 <= cp <= 0x2064
    ||| 0x2066 <= cp <= 0x206f
    ||| 0x20d0 <= cp <= 0x20f0
    ||| 0x2cef <= cp <= 0x2cf1
    ||| cp == 0x2d7f
    ||| 0x2de0 <= cp <= 0x2dff
    ||| 0x302a <= cp <= 0x302d
    ||| 0x3099 <= cp <= 0x309a
    ||| 0xa66f <= cp <= 0xa672
    ||| 0xa674 <= cp <= 0xa67d
    ||| 0xa69e <= cp <= 0xa69f
    ||| 0xa6f0 <= cp <= 0xa6f1
    ||| cp == 0xa802
    ||| cp == 0xa806
    ||| cp == 0xa80b
    ||| 0xa825 <= cp <= 0xa826
    ||| cp == 0xa82c
    ||| 0xa8c4 <= cp <= 0xa8c5
    ||| 0xa8e0 <= cp <= 0xa8f1
    ||| cp == 0xa8ff
    ||| 0xa926 <= cp <= 0xa92d
    ||| 0xa947 <= cp <= 0xa951
    ||| 0xa980 <= cp <= 0xa982
    ||| cp == 0xa9b3
    ||| 0xa9b6 <= cp <= 0xa9b9
    ||| 0xa9bc <= cp <= 0xa9bd
    ||| cp == 0xa9e5
    ||| 0xaa29 <= cp <= 0xaa2e
    ||| 0xaa31 <= cp <= 0xaa32
    ||| 0xaa35 <= cp <= 0xaa36
    ||| cp == 0xaa43
    ||| cp == 0xaa4c
    ||| cp == 0xaa7c
    ||| cp == 0xaab0
    ||| 0xaab2 <= cp <= 0xaab4
    ||| 0xaab7 <= cp <= 0xaab8
    ||| 0xaabe <= cp <= 0xaabf
    ||| cp == 0xaac1
    ||| 0xaaec <= cp <= 0xaaed
    ||| cp == 0xaaf6
    ||| cp == 0xabe5
    ||| cp == 0xabe8
    ||| cp == 0xabed
    ||| cp == 0xfb1e
    ||| 0xfe00 <= cp <= 0xfe0f
    ||| 0xfe20 <= cp <= 0xfe2f
    ||| cp == 0xfeff
    ||| 0xfff9 <= cp <= 0xfffb
    ||| cp == 0x101fd
    ||| cp == 0x102e0
    ||| 0x10376 <= cp <= 0x1037a
    ||| 0x10a01 <= cp <= 0x10a03
    ||| 0x10a05 <= cp <= 0x10a06
    ||| 0x10a0c <= cp <= 0x10a0f
    ||| 0x10a38 <= cp <= 0x10a3a
    ||| cp == 0x10a3f
    ||| 0x10ae5 <= cp <= 0x10ae6
    ||| 0x10d24 <= cp <= 0x10d27
    ||| 0x10eab <= cp <= 0x10eac
    ||| 0x10f46 <= cp <= 0x10f50
    ||| 0x10f82 <= cp <= 0x10f85
    ||| cp == 0x11001
    ||| 0x11038 <= cp <= 0x11046
    ||| cp == 0x11070
    ||| 0x11073 <= cp <= 0x11074
    ||| 0x1107f <= cp <= 0x11081
    ||| 0x110b3 <= cp <= 0x110b6
    ||| 0x110b9 <= cp <= 0x110ba
    ||| cp == 0x110bd
    ||| cp == 0x110c2
    ||| cp == 0x110cd
    ||| 0x11100 <= cp <= 0x11102
    ||| 0x11127 <= cp <= 0x1112b
    ||| 0x1112d <= cp <= 0x11134
    ||| cp == 0x11173
    ||| 0x11180 <= cp <= 0x11181
    ||| 0x111b6 <= cp <= 0x111be
    ||| 0x111c9 <= cp <= 0x111cc
    ||| cp == 0x111cf
    ||| 0x1122f <= cp <= 0x11231
    ||| cp == 0x11234
    ||| 0x11236 <= cp <= 0x11237
    ||| cp == 0x1123e
    ||| cp == 0x112df
    ||| 0x112e3 <= cp <= 0x112ea
    ||| 0x11300 <= cp <= 0x11301
    ||| 0x1133b <= cp <= 0x1133c
    ||| cp == 0x11340
    ||| 0x11366 <= cp <= 0x1136c
    ||| 0x11370 <= cp <= 0x11374
    ||| 0x11438 <= cp <= 0x1143f
    ||| 0x11442 <= cp <= 0x11444
    ||| cp == 0x11446
    ||| cp == 0x1145e
    ||| 0x114b3 <= cp <= 0x114b8
    ||| cp == 0x114ba
    ||| 0x114bf <= cp <= 0x114c0
    ||| 0x114c2 <= cp <= 0x114c3
    ||| 0x115b2 <= cp <= 0x115b5
    ||| 0x115bc <= cp <= 0x115bd
    ||| 0x115bf <= cp <= 0x115c0
    ||| 0x115dc <= cp <= 0x115dd
    ||| 0x11633 <= cp <= 0x1163a
    ||| cp == 0x1163d
    ||| 0x1163f <= cp <= 0x11640
    ||| cp == 0x116ab
    ||| cp == 0x116ad
    ||| 0x116b0 <= cp <= 0x116b5
    ||| cp == 0x116b7
    ||| 0x1171d <= cp <= 0x1171f
    ||| 0x11722 <= cp <= 0x11725
    ||| 0x11727 <= cp <= 0x1172b
    ||| 0x1182f <= cp <= 0x11837
    ||| 0x11839 <= cp <= 0x1183a
    ||| 0x1193b <= cp <= 0x1193c
    ||| cp == 0x1193e
    ||| cp == 0x11943
    ||| 0x119d4 <= cp <= 0x119d7
    ||| 0x119da <= cp <= 0x119db
    ||| cp == 0x119e0
    ||| 0x11a01 <= cp <= 0x11a0a
    ||| 0x11a33 <= cp <= 0x11a38
    ||| 0x11a3b <= cp <= 0x11a3e
    ||| cp == 0x11a47
    ||| 0x11a51 <= cp <= 0x11a56
    ||| 0x11a59 <= cp <= 0x11a5b
    ||| 0x11a8a <= cp <= 0x11a96
    ||| 0x11a98 <= cp <= 0x11a99
    ||| 0x11c30 <= cp <= 0x11c36
    ||| 0x11c38 <= cp <= 0x11c3d
    ||| cp == 0x11c3f
    ||| 0x11c92 <= cp <= 0x11ca7
    ||| 0x11caa <= cp <= 0x11cb0
    ||| 0x11cb2 <= cp <= 0x11cb3
    ||| 0x11cb5 <= cp <= 0x11cb6
    ||| 0x11d31 <= cp <= 0x11d36
    ||| cp == 0x11d3a
    ||| 0x11d3c <= cp <= 0x11d3d
    ||| 0x11d3f <= cp <= 0x11d45
    ||| cp == 0x11d47
    ||| 0x11d90 <= cp <= 0x11d91
    ||| cp == 0x11d95
    ||| cp == 0x11d97
    ||| 0x11ef3 <= cp <= 0x11ef4
    ||| 0x13430 <= cp <= 0x13438
    ||| 0x16af0 <= cp <= 0x16af4
    ||| 0x16b30 <= cp <= 0x16b36
    ||| cp == 0x16f4f
    ||| 0x16f8f <= cp <= 0x16f92
    ||| cp == 0x16fe4
    ||| 0x1bc9d <= cp <= 0x1bc9e
    ||| 0x1bca0 <= cp <= 0x1bca3
    ||| 0x1cf00 <= cp <= 0x1cf2d
    ||| 0x1cf30 <= cp <= 0x1cf46
    ||| 0x1d167 <= cp <= 0x1d169
    ||| 0x1d173 <= cp <= 0x1d182
    ||| 0x1d185 <= cp <= 0x1d18b
    ||| 0x1d1aa <= cp <= 0x1d1ad
    ||| 0x1d242 <= cp <= 0x1d244
    ||| 0x1da00 <= cp <= 0x1da36
    ||| 0x1da3b <= cp <= 0x1da6c
    ||| cp == 0x1da75
    ||| cp == 0x1da84
    ||| 0x1da9b <= cp <= 0x1da9f
    ||| 0x1daa1 <= cp <= 0x1daaf
    ||| 0x1e000 <= cp <= 0x1e006
    ||| 0x1e008 <= cp <= 0x1e018
    ||| 0x1e01b <= cp <= 0x1e021
    ||| 0x1e023 <= cp <= 0x1e024
    ||| 0x1e026 <= cp <= 0x1e02a
    ||| 0x1e130 <= cp <= 0x1e136
    ||| cp == 0x1e2ae
    ||| 0x1e2ec <= cp <= 0x1e2ef
    ||| 0x1e8d0 <= cp <= 0x1e8d6
    ||| 0x1e944 <= cp <= 0x1e94a
    ||| cp == 0xe0001
    ||| 0xe0020 <= cp <= 0xe007f
    ||| 0xe0100 <= cp <= 0xe01ef
}

/// Whether `cp` is an East Asian wide or fullwidth character, which takes two
/// columns.
pub open spec fn is_wide(cp: u32) -> bool {
    ||| 0x1100 <= cp <= 0x115f
    ||| 0x231a <= cp <= 0x231b
    ||| 0x2329 <= cp <= 0x232a
    ||| 0x23e9 <= cp <= 0x23ec
    ||| cp == 0x23f0
    ||| cp == 0x23f3
    ||| 0x25fd <= cp <= 0x25fe
    ||| 0x2614 <= cp <= 0x2615
    ||| 0x2648 <= cp <= 0x2653
    ||| cp == 0x267f
    ||| cp == 0x2693
    ||| cp == 0x26a1
    ||| 0x26aa <= cp <= 0x26ab
    ||| 0x26bd <= cp <= 0x26be
    ||| 0x26c4 <= cp <= 0x26c5
    ||| cp == 0x26ce
    ||| cp == 0x26d4
    ||| cp == 0x26ea
    ||| 0x26f2 <= cp <= 0x26f3
    ||| cp == 0x26f5
    ||| cp == 0x26fa
    ||| cp == 0x26fd
    ||| cp == 0x2705
    ||| 0x270a <= cp <= 0x270b
    ||| cp == 0x2728
    ||| cp == 0x274c
    ||| cp == 0x274e
    ||| 0x2753 <= cp <= 0x2755
    ||| cp == 0x2757
    ||| 0x2795 <= cp <= 0x2797
    ||| cp == 0x27b0
    ||| cp == 0x27bf
    ||| 0x2b1b <= cp <= 0x2b1c
    ||| cp == 0x2b50
    ||| cp == 0x2b55
    ||| 0x2e80 <= cp <= 0x303e
    ||| 0x3041 <= cp <= 0x33ff
    ||| 0x3400 <= cp <= 0x4dbf
    ||| 0x4e00 <= cp <= 0x9fff
    ||| 0xa000 <= cp <= 0xa4cf
    ||| 0xa960 <= cp <= 0xa97f
    ||| 0xac00 <= cp <= 0xd7a3
    ||| 0xf900 <= cp <= 0xfaff
    ||| 0xfe10 <= cp <= 0xfe19
    ||| 0xfe30 <= cp <= 0xfe6f
    ||| 0xff00 <= cp <= 0xff60
    ||| 0xffe0 <= cp <= 0xffe6
    ||| 0x16fe0 <= cp <= 0x16fe4
    ||| 0x17000 <= cp <= 0x18cff
    ||| 0x1b000 <= cp <= 0x1b2ff
    ||| cp == 0x1f004
    ||| cp == 0x1f0cf
    ||| cp == 0x1f18e
    ||| 0x1f191 <= cp <= 0x1f19a
    ||| 0x1f200 <= cp <= 0x1f202
    ||| 0x1f210 <= cp <= 0x1f23b
    ||| 0x1f240 <= cp <= 0x1f248
    ||| 0x1f250 <= cp <= 0x1f251
    ||| 0x1f260 <= cp <= 0x1f265
    ||| 0x1f300 <= cp <= 0x1f320
    ||| 0x1f32d <= cp <= 0x1f335
    ||| 0x1f337 <= cp <= 0x1f37c
    ||| 0x1f37e <= cp <= 0x1f393
    ||| 0x1f3a0 <= cp <= 0x1f3ca
    ||| 0x1f3cf <= cp <= 0x1f3d3
    ||| 0x1f3e0 <= cp <= 0x1f3f0
    ||| cp == 0x1f3f4
    ||| 0x1f3f8 <= cp <= 0x1f43e
    ||| cp == 0x1f440
    ||| 0x1f442 <= cp <= 0x1f4fc
    ||| 0x1f4ff <= cp <= 0x1f53d
    ||| 0x1f54b <= cp <= 0x1f54e
    ||| 0x1f550 <= cp <= 0x1f567
    ||| cp == 0x1f57a
    ||| 0x1f595 <= cp <= 0x1f596
    ||| cp == 0x1f5a4
    ||| 0x1f5fb <= cp <= 0x1f64f
    ||| 0x1f680 <= cp <= 0x1f6c5
    ||| cp == 0x1f6cc
    ||| 0x1f6d0 <= cp <= 0x1f6d2
    ||| 0x1f6d5 <= cp <= 0x1f6d7
    ||| 0x1f6dc <= cp <= 0x1f6df
    ||| 0x1f6eb <= cp <= 0x1f6ec
    ||| 0x1f6f4 <= cp <= 0x1f6fc
    ||| 0x1f7e0 <= cp <= 0x1f7eb
    ||| cp == 0x1f7f0
    ||| 0x1f90c <= cp <= 0x1f93a
    ||| 0x1f93c <= cp <= 0x1f945
    ||| 0x1f947 <= cp <= 0x1f9ff
    ||| 0x1fa70 <= cp <= 0x1faff
    ||| 0x20000 <= cp <= 0x2fffd
    ||| 0x30000 <= cp <= 0x3fffd
}

/// Columns a character other than a tab takes on a terminal.
pub open spec fn char_width(cp: u32) -> int {
    if is_zero_width(cp) {
        0
    } else if is_wide(cp) {
        2
    } else {
        1
    }
}

/// The column after a character is written at column `col`: a tab moves to
/// the next multiple of 8.
pub open spec fn advance(col: int, cp: u32) -> int {
    if cp == 9 {
        col + 8 - col % 8
    } else {
        col + char_width(cp)
    }
}

/// Whether `cp` sends the cursor back to column 0: a carriage return or a
/// form feed.
pub open spec fn is_reset(cp: u32) -> bool {
    cp == 0x0d || cp == 0x0c
}

/// The larger of `a` and `b`.
pub open spec fn wider(a: int, b: int) -> int {
    if a >= b {
        a
    } else {
        b
    }
}

/// The widest column reached when `s` is written from index `i` on, the
/// cursor being at column `col` and the widest column so far `best`. A
/// carriage return or form feed sends the cursor back to column 0; a byte that
/// is not part of a character takes no column.
pub open spec fn columns_from(s: Seq<u8>, i: int, col: int, best: int) -> int
    decreases s.len() - i,
{
    if i < 0 || i >= s.len() {
        wider(best, col)
    } else {
        proof {
            lemma_unit_len_bounds(s, i);
        }
        if unit_len(s, i) > 0 && is_reset(unit_scalar(s, i)) {
            columns_from(s, i + step(s, i), 0, wider(best, col))
        } else if unit_len(s, i) > 0 {
            columns_from(s, i + step(s, i), advance(col, unit_scalar(s, i)), best)
        } else {
            columns_from(s, i + step(s, i), col, best)
        }
    }
}

/// Display width of a line, as `wc -L` measures it: the widest column the
/// cursor reaches when the line is written from column 0.
pub open spec fn display_width(line: Seq<u8>) -> int {
    columns_from(line, 0, 0, 0)
}

/// Whether `cp` takes no column.
fn is_zero_width_exec(cp: u32) -> (res: bool)
    ensures
        res == is_zero_width(cp),
{
    cp <= 0x1f
        || (0x7f <= cp && cp <= 0x9f)
        || (0x300 <= cp && cp <= 0x36f)
        || (0x483 <= cp && cp <= 0x489)
        || (0x591 <= cp && cp <= 0x5bd)
        || cp == 0x5bf
        || (0x5c1 <= cp && cp <= 0x5c2)
        || (0x5c4 <= cp && cp <= 0x5c5)
        || cp == 0x5c7
        || (0x600 <= cp && cp <= 0x605)
        || (0x610 <= cp && cp <= 0x61a)
        || cp == 0x61c
        || (0x64b <= cp && cp <= 0x65f)
        || cp == 0x670
        || (0x6d6 <= cp && cp <= 0x6dd)
        || (0x6df <= cp && cp <= 0x6e4)
        || (0x6e7 <= cp && cp <= 0x6e8)
        || (0x6ea <= cp && cp <= 0x6ed)
        || cp == 0x70f
        || cp == 0x711
        || (0x730 <= cp && cp <= 0x74a)
        || (0x7a6 <= cp && cp <= 0x7b0)
        || (0x7eb <= cp && cp <= 0x7f3)
        || cp == 0x7fd
        || (0x816 <= cp && cp <= 0x819)
        || (0x81b <= cp && cp <= 0x823)
        || (0x825 <= cp && cp <= 0x827)
        || (0x829 <= cp && cp <= 0x82d)
        || (0x859 <= cp && cp <= 0x85b)
        || (0x890 <= cp && cp <= 0x891)
        || (0x898 <= cp && cp <= 0x89f)
        || (0x8ca <= cp && cp <= 0x902)
        || cp == 0x93a
        || cp == 0x93c
        || (0x941 <= cp && cp <= 0x948)
        || cp == 0x94d
        || (0x951 <= cp && cp <= 0x957)
        || (0x962 <= cp && cp <= 0x963)
        || cp == 0x981
        || cp == 0x9bc
        || (0x9c1 <= cp && cp <= 0x9c4)
        || cp == 0x9cd
        || (0x9e2 <= cp && cp <= 0x9e3)
        || cp == 0x9fe
        || (0xa01 <= cp && cp <= 0xa02)
        || cp == 0xa3c
        || (0xa41 <= cp && cp <= 0xa42)
        || (0xa47 <= cp && cp <= 0xa48)
        || (0xa4b <= cp && cp <= 0xa4d)
        || cp == 0xa51
        || (0xa70 <= cp && cp <= 0xa71)
        || cp == 0xa75
        || (0xa81 <= cp && cp <= 0xa82)
        || cp == 0xabc
        || (0xac1 <= cp && cp <= 0xac5)
        || (0xac7 <= cp && cp <= 0xac8)
        || cp == 0xacd
        || (0xae2 <= cp && cp <= 0xae3)
        || (0xafa <= cp && cp <= 0xaff)
        || cp == 0xb01
        || cp == 0xb3c
        || cp == 0xb3f
        || (0xb41 <= cp && cp <= 0xb44)
        || cp == 0xb4d
        || (0xb55 <= cp && cp <= 0xb56)
        || (0xb62 <= cp && cp <= 0xb63)
        || cp == 0xb82
        || cp == 0xbc0
        || cp == 0xbcd
        || cp == 0xc00
        || cp == 0xc04
        || cp == 0xc3c
        || (0xc3e <= cp && cp <= 0xc40)
        || (0xc46 <= cp && cp <= 0xc48)
        || (0xc4a <= cp && cp <= 0xc4d)
        || (0xc55 <= cp && cp <= 0xc56)
        || (0xc62 <= cp && cp <= 0xc63)
        || cp == 0xc81
        || cp == 0xcbc
        || cp == 0xcbf
        || cp == 0xcc6
        || (0xccc <= cp && cp <= 0xccd)
        || (0xce2 <= cp && cp <= 0xce3)
        || (0xd00 <= cp && cp <= 0xd01)
        || (0xd3b <= cp && cp <= 0xd3c)
        || (0xd41 <= cp && cp <= 0xd44)
        || cp == 0xd4d
        || (0xd62 <= cp && cp <= 0xd63)
        || cp == 0xd81
        || cp == 0xdca
        || (0xdd2 <= cp && cp <= 0xdd4)
        || cp == 0xdd6
        || cp == 0xe31
        || (0xe34 <= cp && cp <= 0xe3a)
        || (0xe47 <= cp && cp <= 0xe4e)
        || cp == 0xeb1
        || (0xeb4 <= cp && cp <= 0xebc)
        || (0xec8 <= cp && cp <= 0xecd)
        || (0xf18 <= cp && cp <= 0xf19)
        || cp == 0xf35
        || cp == 0xf37
        || cp == 0xf39
        || (0xf71 <= cp && cp <= 0xf7e)
        || (0xf80 <= cp && cp <= 0xf84)
        || (0xf86 <= cp && cp <= 0xf87)
        || (0xf8d <= cp && cp <= 0xf97)
        || (0xf99 <= cp && cp <= 0xfbc)
        || cp == 0xfc6
        || (0x102d <= cp && cp <= 0x1030)
        || (0x1032 <= cp && cp <= 0x1037)
        || (0x1039 <= cp && cp <= 0x103a)
        || (0x103d <= cp && cp <= 0x103e)
        || (0x1058 <= cp && cp <= 0x1059)
        || (0x105e <= cp && cp <= 0x1060)
        || (0x1071 <= cp && cp <= 0x1074)
        || cp == 0x1082
        || (0x1085 <= cp && cp <= 0x1086)
        || cp == 0x108d
        || cp == 0x109d
        || (0x1160 <= cp && cp <= 0x11ff)
        || (0x135d <= cp && cp <= 0x135f)
        || (0x1712 <= cp && cp <= 0x1714)
        || (0x1732 <= cp && cp <= 0x1733)
        || (0x1752 <= cp && cp <= 0x1753)
        || (0x1772 <= cp && cp <= 0x1773)
        || (0x17b4 <= cp && cp <= 0x17b5)
        || (0x17b7 <= cp && cp <= 0x17bd)
        || cp == 0x17c6
        || (0x17c9 <= cp && cp <= 0x17d3)
        || cp == 0x17dd
        || (0x180b <= cp && cp <= 0x180f)
        || (0x1885 <= cp && cp <= 0x1886)
        || cp == 0x18a9
        || (0x1920 <= cp && cp <= 0x1922)
        || (0x1927 <= cp && cp <= 0x1928)
        || cp == 0x1932
        || (0x1939 <= cp && cp <= 0x193b)
        || (0x1a17 <= cp && cp <= 0x1a18)
        || cp == 0x1a1b
        || cp == 0x1a56
        || (0x1a58 <= cp && cp <= 0x1a5e)
        || cp == 0x1a60
        || cp == 0x1a62
        || (0x1a65 <= cp && cp <= 0x1a6c)
        || (0x1a73 <= cp && cp <= 0x1a7c)
        || cp == 0x1a7f
        || (0x1ab0 <= cp && cp <= 0x1ace)
        || (0x1b00 <= cp && cp <= 0x1b03)
        || cp == 0x1b34
        || (0x1b36 <= cp && cp <= 0x1b3a)
        || cp == 0x1b3c
        || cp == 0x1b42
        || (0x1b6b <= cp && cp <= 0x1b73)
        || (0x1b80 <= cp && cp <= 0x1b81)
        || (0x1ba2 <= cp && cp <= 0x1ba5)
        || (0x1ba8 <= cp && cp <= 0x1ba9)
        || (0x1bab <= cp && cp <= 0x1bad)
        || cp == 0x1be6
        || (0x1be8 <= cp && cp <= 0x1be9)
        || cp == 0x1bed
        || (0x1bef <= cp && cp <= 0x1bf1)
        || (0x1c2c <= cp && cp <= 0x1c33)
        || (0x1c36 <= cp && cp <= 0x1c37)
        || (0x1cd0 <= cp && cp <= 0x1cd2)
        || (0x1cd4 <= cp && cp <= 0x1ce0)
        || (0x1ce2 <= cp && cp <= 0x1ce8)
        || cp == 0x1ced
        || cp == 0x1cf4
        || (0x1cf8 <= cp && cp <= 0x1cf9)
        || (0x1dc0 <= cp && cp <= 0x1dff)
        || (0x200b <= cp && cp <= 0x200f)
        || (0x202a <= cp && cp <= 0x202e)
        || (0x2060 <= cp && cp <= 0x2064)
        || (0x2066 <= cp && cp <= 0x206f)
        || (0x20d0 <= cp && cp <= 0x20f0)
        || (0x2cef <= cp && cp <= 0x2cf1)
        || cp == 0x2d7f
        || (0x2de0 <= cp && cp <= 0x2dff)
        || (0x302a <= cp && cp <= 0x302d)
        || (0x3099 <= cp && cp <= 0x309a)
        || (0xa66f <= cp && cp <= 0xa672)
        || (0xa674 <= cp && cp <= 0xa67d)
        || (0xa69e <= cp && cp <= 0xa69f)
        || (0xa6f0 <= cp && cp <= 0xa6f1)
        || cp == 0xa802
        || cp == 0xa806
        || cp == 0xa80b
        || (0xa825 <= cp && cp <= 0xa826)
        || cp == 0xa82c
        || (0xa8c4 <= cp && cp <= 0xa8c5)
        || (0xa8e0 <= cp && cp <= 0xa8f1)
        || cp == 0xa8ff
        || (0xa926 <= cp && cp <= 0xa92d)
        || (0xa947 <= cp && cp <= 0xa951)
        || (0xa980 <= cp && cp <= 0xa982)
        || cp == 0xa9b3
        || (0xa9b6 <= cp && cp <= 0xa9b9)
        || (0xa9bc <= cp && cp <= 0xa9bd)
        || cp == 0xa9e5
        || (0xaa29 <= cp && cp <= 0xaa2e)
        || (0xaa31 <= cp && cp <= 0xaa32)
        || (0xaa35 <= cp && cp <= 0xaa36)
        || cp == 0xaa43
        || cp == 0xaa4c
        || cp == 0xaa7c
        || cp == 0xaab0
        || (0xaab2 <= cp && cp <= 0xaab4)
        || (0xaab7 <= cp && cp <= 0xaab8)
        || (0xaabe <= cp && cp <= 0xaabf)
        || cp == 0xaac1
        || (0xaaec <= cp && cp <= 0xaaed)
        || cp == 0xaaf6
        || cp == 0xabe5
        || cp == 0xabe8
        || cp == 0xabed
        || cp == 0xfb1e
        || (0xfe00 <= cp && cp <= 0xfe0f)
        || (0xfe20 <= cp && cp <= 0xfe2f)
        || cp == 0xfeff
        || (0xfff9 <= cp && cp <= 0xfffb)
        || cp == 0x101fd
        || cp == 0x102e0
        || (0x10376 <= cp && cp <= 0x1037a)
        || (0x10a01 <= cp && cp <= 0x10a03)
        || (0x10a05 <= cp && cp <= 0x10a06)
        || (0x10a0c <= cp && cp <= 0x10a0f)
        || (0x10a38 <= cp && cp <= 0x10a3a)
        || cp == 0x10a3f
        || (0x10ae5 <= cp && cp <= 0x10ae6)
        || (0x10d24 <= cp && cp <= 0x10d27)
        || (0x10eab <= cp && cp <= 0x10eac)
        || (0x10f46 <= cp && cp <= 0x10f50)
        || (0x10f82 <= cp && cp <= 0x10f85)
        || cp == 0x11001
        || (0x11038 <= cp && cp <= 0x11046)
        || cp == 0x11070
        || (0x11073 <= cp && cp <= 0x11074)
        || (0x1107f <= cp && cp <= 0x11081)
        || (0x110b3 <= cp && cp <= 0x110b6)
        || (0x110b9 <= cp && cp <= 0x110ba)
        || cp == 0x110bd
        || cp == 0x110c2
        || cp == 0x110cd
        || (0x11100 <= cp && cp <= 0x11102)
        || (0x11127 <= cp && cp <= 0x1112b)
        || (0x1112d <= cp && cp <= 0x11134)
        || cp == 0x11173
        || (0x11180 <= cp && cp <= 0x11181)
        || (0x111b6 <= cp && cp <= 0x111be)
        || (0x111c9 <= cp && cp <= 0x111cc)
        || cp == 0x111cf
        || (0x1122f <= cp && cp <= 0x11231)
        || cp == 0x11234
        || (0x11236 <= cp && cp <= 0x11237)
        || cp == 0x1123e
        || cp == 0x112df
        || (0x112e3 <= cp && cp <= 0x112ea)
        || (0x11300 <= cp && cp <= 0x11301)
        || (0x1133b <= cp && cp <= 0x1133c)
        || cp == 0x11340
        || (0x11366 <= cp && cp <= 0x1136c)
        || (0x11370 <= cp && cp <= 0x11374)
        || (0x11438 <= cp && cp <= 0x1143f)
        || (0x11442 <= cp && cp <= 0x11444)
        || cp == 0x11446
        || cp == 0x1145e
        || (0x114b3 <= cp && cp <= 0x114b8)
        || cp == 0x114ba
        || (0x114bf <= cp && cp <= 0x114c0)
        || (0x114c2 <= cp && cp <= 0x114c3)
        || (0x115b2 <= cp && cp <= 0x115b5)
        || (0x115bc <= cp && cp <= 0x115bd)
        || (0x115bf <= cp && cp <= 0x115c0)
        || (0x115dc <= cp && cp <= 0x115dd)
        || (0x11633 <= cp && cp <= 0x1163a)
        || cp == 0x1163d
        || (0x1163f <= cp && cp <= 0x11640)
        || cp == 0x116ab
        || cp == 0x116ad
        || (0x116b0 <= cp && cp <= 0x116b5)
        || cp == 0x116b7
        || (0x1171d <= cp && cp <= 0x1171f)
        || (0x11722 <= cp && cp <= 0x11725)
        || (0x11727 <= cp && cp <= 0x1172b)
        || (0x1182f <= cp && cp <= 0x11837)
        || (0x11839 <= cp && cp <= 0x1183a)
        || (0x1193b <= cp && cp <= 0x1193c)
        || cp == 0x1193e
        || cp == 0x11943
        || (0x119d4 <= cp && cp <= 0x119d7)
        || (0x119da <= cp && cp <= 0x119db)
        || cp == 0x119e0
        || (0x11a01 <= cp && cp <= 0x11a0a)
        || (0x11a33 <= cp && cp <= 0x11a38)
        || (0x11a3b <= cp && cp <= 0x11a3e)
        || cp == 0x11a47
        || (0x11a51 <= cp && cp <= 0x11a56)
        || (0x11a59 <= cp && cp <= 0x11a5b)
        || (0x11a8a <= cp && cp <= 0x11a96)
        || (0x11a98 <= cp && cp <= 0x11a99)
        || (0x11c30 <= cp && cp <= 0x11c36)
        || (0x11c38 <= cp && cp <= 0x11c3d)
        || cp == 0x11c3f
        || (0x11c92 <= cp && cp <= 0x11ca7)
        || (0x11caa <= cp && cp <= 0x11cb0)
        || (0x11cb2 <= cp && cp <= 0x11cb3)
        || (0x11cb5 <= cp && cp <= 0x11cb6)
        || (0x11d31 <= cp && cp <= 0x11d36)
        || cp == 0x11d3a
        || (0x11d3c <= cp && cp <= 0x11d3d)
        || (0x11d3f <= cp && cp <= 0x11d45)
        || cp == 0x11d47
        || (0x11d90 <= cp && cp <= 0x11d91)
        || cp == 0x11d95
        || cp == 0x11d97
        || (0x11ef3 <= cp && cp <= 0x11ef4)
        || (0x13430 <= cp && cp <= 0x13438)
        || (0x16af0 <= cp && cp <= 0x16af4)
        || (0x16b30 <= cp && cp <= 0x16b36)
        || cp == 0x16f4f
        || (0x16f8f <= cp && cp <= 0x16f92)
        || cp == 0x16fe4
        || (0x1bc9d <= cp && cp <= 0x1bc9e)
        || (0x1bca0 <= cp && cp <= 0x1bca3)
        || (0x1cf00 <= cp && cp <= 0x1cf2d)
        || (0x1cf30 <= cp && cp <= 0x1cf46)
        || (0x1d167 <= cp && cp <= 0x1d169)
        || (0x1d173 <= cp && cp <= 0x1d182)
        || (0x1d185 <= cp && cp <= 0x1d18b)
        || (0x1d1aa <= cp && cp <= 0x1d1ad)
        || (0x1d242 <= cp && cp <= 0x1d244)
        || (0x1da00 <= cp && cp <= 0x1da36)
        || (0x1da3b <= cp && cp <= 0x1da6c)
        || cp == 0x1da75
        || cp == 0x1da84
        || (0x1da9b <= cp && cp <= 0x1da9f)
        || (0x1daa1 <= cp && cp <= 0x1daaf)
        || (0x1e000 <= cp && cp <= 0x1e006)
        || (0x1e008 <= cp && cp <= 0x1e018)
        || (0x1e01b <= cp && cp <= 0x1e021)
        || (0x1e023 <= cp && cp <= 0x1e024)
        || (0x1e026 <= cp && cp <= 0x1e02a)
        || (0x1e130 <= cp && cp <= 0x1e136)
        || cp == 0x1e2ae
        || (0x1e2ec <= cp && cp <= 0x1e2ef)
        || (0x1e8d0 <= cp && cp <= 0x1e8d6)
        || (0x1e944 <= cp && cp <= 0x1e94a)
        || cp == 0xe0001
        || (0xe0020 <= cp && cp <= 0xe007f)
        || (0xe0100 <= cp && cp <= 0xe01ef)
}

/// Whether `cp` is an East Asian wide or fullwidth character.
fn is_wide_exec(cp: u32) -> (res: bool)
    ensures
        res == is_wide(cp),
{
    (0x1100 <= cp && cp <= 0x115f) || (0x231a <= cp && cp <= 0x231b) || (0x2329 <= cp && cp <= 0x232a) || (0x23e9 <= cp && cp <= 0x23ec) || cp == 0x23f0 || cp == 0x23f3 || (0x25fd <= cp && cp <= 0x25fe) || (0x2614 <= cp && cp <= 0x2615) || (0x2648 <= cp && cp <= 0x2653) || cp == 0x267f || cp == 0x2693 || cp == 0x26a1 || (0x26aa <= cp && cp <= 0x26ab) || (0x26bd <= cp && cp <= 0x26be) || (0x26c4 <= cp && cp <= 0x26c5) || cp == 0x26ce || cp == 0x26d4 || cp == 0x26ea || (0x26f2 <= cp && cp <= 0x26f3) || cp == 0x26f5 || cp == 0x26fa || cp == 0x26fd || cp == 0x2705 || (0x270a <= cp && cp <= 0x270b) || cp == 0x2728 || cp == 0x274c || cp == 0x274e || (0x2753 <= cp && cp <= 0x2755) || cp == 0x2757 || (0x2795 <= cp && cp <= 0x2797) || cp == 0x27b0 || cp == 0x27bf || (0x2b1b <= cp && cp <= 0x2b1c) || cp == 0x2b50 || cp == 0x2b55 || (0x2e80 <= cp && cp <= 0x303e) || (0x3041 <= cp && cp <= 0x33ff) || (0x3400 <= cp && cp <= 0x4dbf) || (0x4e00 <= cp && cp <= 0x9fff) || (0xa000 <= cp && cp <= 0xa4cf) || (0xa960 <= cp && cp <= 0xa97f) || (0xac00 <= cp && cp <= 0xd7a3) || (0xf900 <= cp && cp <= 0xfaff) || (0xfe10 <= cp && cp <= 0xfe19) || (0xfe30 <= cp && cp <= 0xfe6f) || (0xff00 <= cp && cp <= 0xff60) || (0xffe0 <= cp && cp <= 0xffe6) || (0x16fe0 <= cp && cp <= 0x16fe4) || (0x17000 <= cp && cp <= 0x18cff) || (0x1b000 <= cp && cp <= 0x1b2ff) || cp == 0x1f004 || cp == 0x1f0cf || cp == 0x1f18e || (0x1f191 <= cp && cp <= 0x1f19a) || (0x1f200 <= cp && cp <= 0x1f202) || (0x1f210 <= cp && cp <= 0x1f23b) || (0x1f240 <= cp && cp <= 0x1f248) || (0x1f250 <= cp && cp <= 0x1f251) || (0x1f260 <= cp && cp <= 0x1f265) || (0x1f300 <= cp && cp <= 0x1f320) || (0x1f32d <= cp && cp <= 0x1f335) || (0x1f337 <= cp && cp <= 0x1f37c) || (0x1f37e <= cp && cp <= 0x1f393) || (0x1f3a0 <= cp && cp <= 0x1f3ca) || (0x1f3cf <= cp && cp <= 0x1f3d3) || (0x1f3e0 <= cp && cp <= 0x1f3f0) || cp == 0x1f3f4 || (0x1f3f8 <= cp && cp <= 0x1f43e) || cp == 0x1f440 || (0x1f442 <= cp && cp <= 0x1f4fc) || (0x1f4ff <= cp && cp <= 0x1f53d) || (0x1f54b <= cp && cp <= 0x1f54e) || (0x1f550 <= cp && cp <= 0x1f567) || cp == 0x1f57a || (0x1f595 <= cp && cp <= 0x1f596) || cp == 0x1f5a4 || (0x1f5fb <= cp && cp <= 0x1f64f) || (0x1f680 <= cp && cp <= 0x1f6c5) || cp == 0x1f6cc || (0x1f6d0 <= cp && cp <= 0x1f6d2) || (0x1f6d5 <= cp && cp <= 0x1f6d7) || (0x1f6dc <= cp && cp <= 0x1f6df) || (0x1f6eb <= cp && cp <= 0x1f6ec) || (0x1f6f4 <= cp && cp <= 0x1f6fc) || (0x1f7e0 <= cp && cp <= 0x1f7eb) || cp == 0x1f7f0 || (0x1f90c <= cp && cp <= 0x1f93a) || (0x1f93c <= cp && cp <= 0x1f945) || (0x1f947 <= cp && cp <= 0x1f9ff) || (0x1fa70 <= cp && cp <= 0x1faff) || (0x20000 <= cp && cp <= 0x2fffd) || (0x30000 <= cp && cp <= 0x3fffd)
}

/// Columns that a character other than a tab takes.
pub fn char_columns(cp: u32) -> (res: usize)
    ensures
        res == char_width(cp),
{
    if is_zero_width_exec(cp) {
        0
    } else if is_wide_exec(cp) {
        2
    } else {
        1
    }
}

/// `v`, or `usize::MAX` when `v` is larger.
pub open spec fn cap(v: int) -> int {
    if v > usize::MAX {
        usize::MAX as int
    } else {
        v
    }
}

/// Display width of `line`, a line without its line ending (`usize::MAX`
/// when it is wider).
pub fn line_width(line: &[u8]) -> (res: usize)
    ensures
        res == cap(display_width(line@)),
{
    let n = line.len();
    let mut col: usize = 0;
    let mut best: usize = 0;
    let ghost mut exact: int = 0;
    let ghost mut exact_best: int = 0;
    let mut i: usize = 0;
    while i < n
        invariant
            n == line@.len(),
            i <= n,
            0 <= exact,
            0 <= exact_best,
            col == cap(exact),
            best == cap(exact_best),
            columns_from(line@, i as int, exact, exact_best) == display_width(line@),
        decreases n - i,
    {
        let (l, cp) = unit_len_at(line, i);
        proof {
            lemma_unit_len_bounds(line@, i as int);
        }
        if l > 0 && (cp == 0x0d || cp == 0x0c) {
            if col > best {
                best = col;
            }
            col = 0;
            proof {
                exact_best = wider(exact_best, exact);
                exact = 0;
            }
            i = i + l;
        } else if l > 0 {
            let add: usize = if cp == 9 {
                8 - col % 8
            } else {
                char_columns(cp)
            };
            proof {
                if exact <= usize::MAX {
                    assert(advance(exact, cp) == exact + add);
                } else {
                    assert(advance(exact, cp) >= exact);
                }
            }
            col = col.saturating_add(add);
            proof {
                exact = advance(exact, cp);
            }
            i = i + l;
        } else {
            i = i + 1;
        }
    }
    if col > best {
        col
    } else {
        best
    }
}

/// Whether every byte of `s` is a printable ASCII character.
pub open spec fn printable_ascii(s: Seq<u8>) -> bool {
    forall|k: int| 0 <= k < s.len() ==> 0x20 <= #[trigger] s[k] <= 0x7e
}

proof fn lemma_ascii_columns(s: Seq<u8>, i: int, col: int, best: int)
    requires
        0 <= i <= s.len(),
        best <= col,
        printable_ascii(s),
    ensures
        columns_from(s, i, col, best) == col + (s.len() - i),
    decreases s.len() - i,
{
    if i < s.len() {
        let b = s[i];
        assert(tail(s, i)[0] == b);
        assert(b <= 0x7f ==> (b & 0x7f) == b) by (bit_vector);
        assert(unit_len(s, i) == 1);
        assert(unit_scalar(s, i) == b as u32);
        lemma_ascii_columns(s, i + 1, col + 1, best);
    }
}

/// On printable ASCII, display columns and bytes agree: a line's width is its
/// length.
pub proof fn lemma_ascii_width(s: Seq<u8>)
    requires
        printable_ascii(s),
    ensures
        display_width(s) == s.len(),
{
    lemma_ascii_columns(s, 0, 0, 0);
}

proof fn lemma_columns_shift(a: Seq<u8>, b: Seq<u8>, j: int, col: int, best: int)
    requires
        0 <= j <= b.len(),
    ensures
        columns_from(a + b, a.len() + j, col, best) == columns_from(b, j, col, best),
    decreases b.len() - j,
{
    if j < b.len() {
        crate::text::lemma_unit_len_shift(a, b, j);
        lemma_unit_len_bounds(b, j);
        let next = j + step(b, j);
        if unit_len(b, j) > 0 && is_reset(unit_scalar(b, j)) {
            lemma_columns_shift(a, b, next, 0, wider(best, col));
        } else if unit_len(b, j) > 0 {
            lemma_columns_shift(a, b, next, advance(col, unit_scalar(b, j)), best);
        } else {
            lemma_columns_shift(a, b, next, col, best);
        }
    }
}

/// Whether `c` is a precomposed Hangul syllable (U+AC00 to U+D7A3).
pub open spec fn is_hangul_syllable(c: char) -> bool {
    0xac00 <= (c as u32) <= 0xd7a3
}

/// Whether `c` is in one of the main East Asian wide blocks: Hangul jamo
/// initials, Hiragana, Katakana, CJK ideographs and their extensions and
/// compatibility block, Hangul syllables, fullwidth forms.
pub open spec fn is_wide_letter(c: char) -> bool {
    let v = c as u32;
    ||| 0x1100 <= v <= 0x115f
    ||| 0x3041 <= v <= 0x3096
    ||| 0x30a1 <= v <= 0x30fa
    ||| 0x3400 <= v <= 0x4dbf
    ||| 0x4e00 <= v <= 0x9fff
    ||| 0xac00 <= v <= 0xd7a3
    ||| 0xf900 <= v <= 0xfaff
    ||| 0xff01 <= v <= 0xff60
    ||| 0xffe0 <= v <= 0xffe6
    ||| 0x20000 <= v <= 0x2fffd
    ||| 0x30000 <= v <= 0x3fffd
}

proof fn lemma_wide_columns(t: Seq<char>, col: int, best: int)
    requires
        forall|k: int| 0 <= k < t.len() ==> is_wide_letter(#[trigger] t[k]),
        best <= col,
    ensures
        columns_from(encode_utf8(t), 0, col, best) == col + 2 * t.len(),
    decreases t.len(),
{
    let s = encode_utf8(t);
    if t.len() == 0 {
        assert(s.len() == 0);
    } else {
        let c = t[0];
        let h = encode_scalar(c as u32);
        let rest = t.drop_first();
        assert forall|k: int| 0 <= k < rest.len() implies is_wide_letter(#[trigger] rest[k]) by {
            assert(rest[k] == t[k + 1]);
        }
        vstd::utf8::encode_utf8_first_scalar(t);
        assert(s == h + encode_utf8(rest));
        assert(tail(s, 0) =~= s);
        assert(is_wide_letter(t[0]));
        assert(unit_len(s, 0) == h.len());
        assert(unit_scalar(s, 0) == c as u32);
        assert(!is_zero_width(c as u32));
        assert(is_wide(c as u32));
        assert(advance(col, c as u32) == col + 2);
        lemma_wide_columns(rest, col + 2, best);
        lemma_columns_shift(h, encode_utf8(rest), 0, col + 2, best);
    }
}

/// Hangul syllables are East Asian wide: a line of `n` of them is `2 * n`
/// columns wide.
pub proof fn lemma_hangul_width(t: Seq<char>)
    requires
        forall|k: int| 0 <= k < t.len() ==> is_hangul_syllable(#[trigger] t[k]),
    ensures
        display_width(encode_utf8(t)) == 2 * t.len(),
{
    assert forall|k: int| 0 <= k < t.len() implies is_wide_letter(#[trigger] t[k]) by {
        assert(is_hangul_syllable(t[k]));
    }
    lemma_wide_columns(t, 0, 0);
}

/// Characters of the East Asian wide blocks take two columns each: a line
/// of `n` of them is `2 * n` columns wide.
pub proof fn lemma_wide_text_width(t: Seq<char>)
    requires
        forall|k: int| 0 <= k < t.len() ==> is_wide_letter(#[trigger] t[k]),
    ensures
        display_width(encode_utf8(t)) == 2 * t.len(),
{
    lemma_wide_columns(t, 0, 0);
}

} // verus!
