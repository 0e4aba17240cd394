//! UTF-16 text as the Windows API takes it.

use crate::content;
use crate::text::chars_of;
use vstd::prelude::*;

verus! {

/// The UTF-16 units of a character: itself, or a surrogate pair.
pub open spec fn units_of(c: char) -> Seq<u16> {
    let n = c as int;
    if n < 0x10000 {
        seq![n as u16]
    } else {
        seq![
            (0xD800 + (n - 0x10000) / 0x400) as u16,
            (0xDC00 + (n - 0x10000) % 0x400) as u16,
        ]
    }
}

/// The UTF-16 units of a text.
pub open spec fn utf16_of(s: Seq<char>) -> Seq<u16>
    decreases s.len(),
{
    if s.len() == 0 {
        Seq::empty()
    } else {
        utf16_of(s.drop_last()) + units_of(s.last())
    }
}

/// Append the UTF-16 units of a character.
fn push_units(out: &mut Vec<u16>, c: char)
    ensures
        final(out)@ == old(out)@ + units_of(c),
{
    let ghost before = out@;
    let n: u32 = c as u32;
    if n < 0x10000 {
        out.push(n as u16);
    } else {
        out.push((0xD800 + (n - 0x10000) / 0x400) as u16);
        out.push((0xDC00 + (n - 0x10000) % 0x400) as u16);
    }
    assert(out@ =~= before + units_of(c));
}

/// The UTF-16 units of a text, as many NULs behind it as `nuls` says.
fn encode(s: &str, nuls: usize) -> (r: Vec<u16>)
    ensures
        r@ == utf16_of(s@) + Seq::new(nuls as nat, |i: int| 0u16),
{
    let chars = chars_of(s);
    let mut out: Vec<u16> = Vec::new();
    let mut i: usize = 0;
    assert(chars@.take(0) =~= Seq::empty());
    while i < chars.len()
        invariant
            i <= chars@.len(),
            out@ == utf16_of(chars@.take(i as int)),
        decreases chars@.len() - i,
    {
        assert(chars@.take(i + 1).drop_last() =~= chars@.take(i as int));
        push_units(&mut out, chars[i]);
        i += 1;
    }
    assert(chars@.take(i as int) =~= chars@);
    let mut k: usize = 0;
    assert(out@ =~= utf16_of(s@) + Seq::new(0, |i: int| 0u16));
    while k < nuls
        invariant
            k <= nuls,
            out@ == utf16_of(s@) + Seq::new(k as nat, |i: int| 0u16),
        decreases nuls - k,
    {
        out.push(0);
        k += 1;
        assert(out@ =~= utf16_of(s@) + Seq::new(k as nat, |i: int| 0u16));
    }
    out
}

/// A NUL-terminated UTF-16 text.
pub fn wide(s: &str) -> (r: Vec<u16>)
    ensures
        r@ == utf16_of(s@).push(0),
{
    let out = encode(s, 1);
    assert(out@ =~= utf16_of(s@).push(0));
    out
}

/// A list of one path, as the shell's file operations take it: NUL-separated and
/// double-NUL-terminated.
pub fn wide_list(path: &str) -> (r: Vec<u16>)
    ensures
        r@ == utf16_of(path@).push(0).push(0),
{
    let out = encode(path, 2);
    assert(out@ =~= utf16_of(path@).push(0).push(0));
    out
}

/// A text comes back from its UTF-16 units.
pub proof fn law_utf16_round_trip(s: Seq<char>)
    ensures
        content::utf16_text(utf16_of(s)) == s,
    decreases s.len(),
{
    if s.len() > 0 {
        lemma_front(s);
        law_utf16_round_trip(s.drop_first());
        lemma_first(s[0], utf16_of(s.drop_first()));
        assert(seq![s[0]] + s.drop_first() =~= s);
    }
}

proof fn lemma_first(c: char, rest: Seq<u16>)
    ensures
        content::utf16_text(units_of(c) + rest) == seq![c] + content::utf16_text(rest),
{
    let all = units_of(c) + rest;
    let n = c as int;
    if n < 0x10000 {
        assert(all.skip(1) =~= rest);
        assert(all[0] == n);
    } else {
        assert(all.skip(2) =~= rest);
        assert(all[0] == 0xD800 + (n - 0x10000) / 0x400);
        assert(all[1] == 0xDC00 + (n - 0x10000) % 0x400);
    }
}

proof fn lemma_front(s: Seq<char>)
    requires
        s.len() > 0,
    ensures
        utf16_of(s) == units_of(s[0]) + utf16_of(s.drop_first()),
    decreases s.len(),
{
    if s.len() == 1 {
        assert(s.drop_last() =~= Seq::empty());
        assert(s.drop_first() =~= Seq::empty());
        assert(utf16_of(s) =~= units_of(s[0]) + utf16_of(s.drop_first()));
    } else {
        lemma_front(s.drop_last());
        assert(s.drop_last().drop_first() =~= s.drop_first().drop_last());
        assert(utf16_of(s) =~= units_of(s[0]) + utf16_of(s.drop_first()));
    }
}

} // verus!
