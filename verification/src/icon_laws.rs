//! Laws of icons as pictures.

use crate::icons;
use vstd::prelude::*;

verus! {

/// Whether any pixel has an opacity of its own.
pub open spec fn shows_through(color: Seq<u8>) -> bool {
    exists|i: int| 0 <= i < color.len() && #[trigger] color[i] != 0 && i % 4 == 3
}

/// The pixels of a picture are those of the icon with red and blue changed over. Their
/// opacity is their own where any pixel has one; else those are opaque that the mask
/// leaves out, and no others.
pub proof fn law_pixels(color: Vec<u8>, mask: Vec<u8>, r: Vec<u8>, i: int)
    requires
        color@.len() % 4 == 0,
        mask@.len() == color@.len(),
        call_ensures(icons::icon_rgba, (&color, &mask), r),
        0 <= i,
        4 * i + 3 < color@.len(),
    ensures
        r@.len() == color@.len(),
        r@[4 * i] == color@[4 * i + 2],
        r@[4 * i + 1] == color@[4 * i + 1],
        r@[4 * i + 2] == color@[4 * i],
        shows_through(color@) ==> r@[4 * i + 3] == color@[4 * i + 3],
        !shows_through(color@) ==> r@[4 * i + 3] == if mask@[4 * i] == 0 {
            255u8
        } else {
            0u8
        },
{
    let c = color@;
    assert((4 * i) / 4 == i && (4 * i) % 4 == 0);
    assert((4 * i + 1) / 4 == i && (4 * i + 1) % 4 == 1);
    assert((4 * i + 2) / 4 == i && (4 * i + 2) % 4 == 2);
    assert((4 * i + 3) / 4 == i && (4 * i + 3) % 4 == 3);
    if icons::has_alpha(c) {
        let k = choose|k: int| 0 <= 4 * k < c.len() && #[trigger] c[4 * k + 3] != 0;
        assert(c[4 * k + 3] != 0 && (4 * k + 3) % 4 == 3);
        assert(4 * k + 3 < c.len());
    }
    if shows_through(c) {
        let k = choose|k: int| 0 <= k < c.len() && #[trigger] c[k] != 0 && k % 4 == 3;
        let j = k / 4;
        assert(c[4 * j + 3] != 0);
    }
}

/// The icon of a folder is asked for by the directory attribute, and that of a file by a
/// name with its extension.
pub proof fn law_icon_query(ext: Option<&str>, is_dir: bool, r: (String, u32))
    requires
        call_ensures(icons::icon_query, (ext, is_dir), r),
    ensures
        r.1 & 0x10 != 0 <==> is_dir,
        !is_dir ==> (ext matches Some(e) ==> r.0@ == seq!['x', '.'] + e@),
{
    assert(0x80u32 & 0x10 == 0 && 0x10u32 & 0x10 != 0) by (bit_vector);
    reveal_strlit("x.");
    assert("x."@ =~= seq!['x', '.']);
}

/// The number of a character of the alphabet of base 64.
pub open spec fn sextet(c: char) -> int {
    if 'A' <= c <= 'Z' {
        c as int - 'A' as int
    } else if 'a' <= c <= 'z' {
        c as int - 'a' as int + 26
    } else if '0' <= c <= '9' {
        c as int - '0' as int + 52
    } else if c == '+' {
        62
    } else {
        63
    }
}

/// The bytes that a text in base 64 stands for: three for every four characters, but for
/// the marks at the end.
pub open spec fn unbased(s: Seq<char>) -> Seq<u8>
    decreases s.len(),
{
    if s.len() < 4 {
        Seq::empty()
    } else {
        let (a, b, c, d) = (sextet(s[0]), sextet(s[1]), sextet(s[2]), sextet(s[3]));
        let x = (a * 4 + b / 16) as u8;
        let y = (b % 16 * 16 + c / 4) as u8;
        let z = (c % 4 * 64 + d) as u8;
        if s[2] == '=' {
            seq![x]
        } else if s[3] == '=' {
            seq![x, y]
        } else {
            seq![x, y, z] + unbased(s.skip(4))
        }
    }
}

proof fn lemma_sextet(n: int)
    requires
        0 <= n < 64,
    ensures
        sextet(icons::base64_char(n)) == n,
        icons::base64_char(n) != '=',
{
}

/// A file as text stands for the bytes of the file.
#[verifier::rlimit(40)]
pub proof fn law_base64(b: Seq<u8>)
    ensures
        unbased(icons::base64_of(b)) == b,
    decreases b.len(),
{
    let s = icons::base64_of(b);
    if b.len() == 0 {
        assert(b =~= Seq::empty());
    } else {
        let (x, y, z) = (
            b[0] as int,
            if b.len() > 1 {
                b[1] as int
            } else {
                0
            },
            if b.len() > 2 {
                b[2] as int
            } else {
                0
            },
        );
        lemma_sextet(x / 4);
        lemma_sextet(x % 4 * 16 + y / 16);
        lemma_sextet(y % 16 * 4 + z / 64);
        lemma_sextet(z % 64);
        assert((x / 4) * 4 + (x % 4 * 16 + y / 16) / 16 == x);
        assert((x % 4 * 16 + y / 16) % 16 * 16 + (y % 16 * 4 + z / 64) / 4 == y);
        assert((y % 16 * 4 + z / 64) % 4 * 64 + z % 64 == z);
        if b.len() == 1 {
            assert(unbased(s) =~= b);
        } else if b.len() == 2 {
            assert(unbased(s) =~= b);
        } else {
            law_base64(b.skip(3));
            assert(s.skip(4) =~= icons::base64_of(b.skip(3)));
            assert(unbased(s) =~= b);
        }
    }
}

} // verus!
