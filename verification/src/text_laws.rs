//! Laws of texts.

use crate::text;
use vstd::prelude::*;

verus! {

/// Whether a text is white space throughout.
pub open spec fn blank(s: Seq<char>) -> bool {
    forall|i: int| 0 <= i < s.len() ==> text::is_space(#[trigger] s[i])
}

proof fn lemma_start(a: Seq<char>, s: Seq<char>)
    requires
        blank(a),
        s.len() > 0 ==> !text::is_space(s[0]),
    ensures
        text::trimmed_start(a + s) == s,
    decreases a.len(),
{
    if a.len() == 0 {
        assert(a + s =~= s);
    } else {
        let t = a.drop_first();
        assert(text::is_space(a[0]));
        assert((a + s)[0] == a[0]);
        assert forall|i: int| 0 <= i < t.len() implies text::is_space(#[trigger] t[i]) by {
            assert(t[i] == a[i + 1]);
        }
        lemma_start(t, s);
        assert((a + s).drop_first() =~= t + s);
    }
}

proof fn lemma_end(s: Seq<char>, b: Seq<char>)
    requires
        blank(b),
        s.len() > 0 ==> !text::is_space(s.last()),
    ensures
        text::trimmed_end(s + b) == s,
    decreases b.len(),
{
    if b.len() == 0 {
        assert(s + b =~= s);
    } else {
        let t = b.drop_last();
        assert(text::is_space(b[b.len() - 1]));
        assert((s + b).last() == b[b.len() - 1]);
        assert forall|i: int| 0 <= i < t.len() implies text::is_space(#[trigger] t[i]) by {
            assert(t[i] == b[i]);
        }
        lemma_end(s, t);
        assert((s + b).drop_last() =~= s + t);
    }
}

/// Trimming takes the white space off both ends of a text, and nothing else.
pub proof fn law_trimmed(a: Seq<char>, s: Seq<char>, b: Seq<char>)
    requires
        blank(a),
        blank(b),
        s.len() > 0,
        !text::is_space(s[0]),
        !text::is_space(s.last()),
    ensures
        text::trimmed(a + s + b) == s,
{
    assert(a + s + b =~= a + (s + b));
    assert((s + b)[0] == s[0]);
    lemma_start(a, s + b);
    lemma_end(s, b);
}

/// White space alone is trimmed away.
pub proof fn law_trimmed_blank(a: Seq<char>)
    requires
        blank(a),
    ensures
        text::trimmed(a) == Seq::<char>::empty(),
{
    let none = Seq::<char>::empty();
    lemma_start(a, none);
    assert(a + none =~= a);
}

/// Tabs, line ends and spaces of any width are white space; no other character up to the
/// last of ASCII is.
pub proof fn law_white_space(c: char)
    ensures
        c == ' ' || c == '\t' || c == '\n' || c == '\r' || c == '\u{A0}' || c == '\u{3000}'
            ==> text::is_space(c),
        (c as u32) < 128 && text::is_space(c) ==> c == ' ' || 9 <= c as u32 <= 13,
{
}

/// Folding in ASCII turns each of the twenty-six capitals into its small letter, and
/// leaves all else as it is.
pub proof fn law_ascii_lowered(s: Seq<char>, i: int)
    requires
        0 <= i < s.len(),
    ensures
        text::ascii_lowered(s).len() == s.len(),
        'A' <= s[i] <= 'Z' ==> text::ascii_lowered(s)[i] as u32 == s[i] as u32 + 32,
        !('A' <= s[i] <= 'Z') ==> text::ascii_lowered(s)[i] == s[i],
{
}

} // verus!
