//! Laws of the patterns that are handed to the outside engine.

use crate::pattern;
use vstd::prelude::*;

verus! {

/// Where a reader of a pattern stands.
pub enum Mode {
    Plain,
    /// Behind a point, which may be the start of a run.
    Point,
    /// Behind a backslash.
    Slash,
}

/// What a reader of a pattern has read: the term, with `?` for any one character and `*`
/// for any run.
#[verifier::ext_equal]
pub struct Reader {
    pub term: Seq<char>,
    pub mode: Mode,
}

/// The term once a point that still waits stands for one character.
pub open spec fn settled(r: Reader) -> Seq<char> {
    if r.mode is Point {
        r.term.push('?')
    } else {
        r.term
    }
}

/// One more character of a pattern.
pub open spec fn read_char(r: Reader, c: char) -> Reader {
    if r.mode is Slash {
        Reader { term: r.term.push(c), mode: Mode::Plain }
    } else if r.mode is Point && c == '*' {
        Reader { term: r.term.push('*'), mode: Mode::Plain }
    } else if c == '.' {
        Reader { term: settled(r), mode: Mode::Point }
    } else if c == '\\' {
        Reader { term: settled(r), mode: Mode::Slash }
    } else {
        Reader { term: settled(r).push(c), mode: Mode::Plain }
    }
}

/// All the characters of a pattern.
pub open spec fn read_on(r: Reader, p: Seq<char>) -> Reader
    decreases p.len(),
{
    if p.len() == 0 {
        r
    } else {
        read_char(read_on(r, p.drop_last()), p.last())
    }
}

/// A reader at the start of a pattern.
pub open spec fn fresh() -> Reader {
    Reader { term: Seq::empty(), mode: Mode::Plain }
}

proof fn lemma_append(r: Reader, a: Seq<char>, b: Seq<char>)
    ensures
        read_on(r, a + b) == read_on(read_on(r, a), b),
    decreases b.len(),
{
    if b.len() == 0 {
        assert(a + b =~= a);
    } else {
        assert((a + b).drop_last() =~= a + b.drop_last());
        lemma_append(r, a, b.drop_last());
    }
}

proof fn lemma_one(r: Reader, c: char)
    ensures
        read_on(r, seq![c]) == read_char(r, c),
{
    assert(seq![c].drop_last() =~= Seq::empty());
    assert(read_on(r, seq![c].drop_last()) == r);
}

proof fn lemma_two(r: Reader, c: char, d: char)
    ensures
        read_on(r, seq![c, d]) == read_char(read_char(r, c), d),
{
    assert(seq![c, d].drop_last() =~= seq![c]);
    lemma_one(r, c);
}

/// What a character of a term becomes is read back as that character.
proof fn lemma_glob_char(r: Reader, c: char)
    requires
        !(r.mode is Slash),
    ensures
        settled(read_on(r, pattern::glob_char(c))) == settled(r).push(c),
        !(read_on(r, pattern::glob_char(c)).mode is Slash),
{
    if c == '*' {
        lemma_two(r, '.', '*');
    } else if c == '?' {
        lemma_one(r, '.');
    } else if pattern::is_meta(c) {
        lemma_two(r, '\\', c);
    } else {
        lemma_one(r, c);
    }
}

proof fn lemma_glob_body(s: Seq<char>)
    ensures
        settled(read_on(fresh(), pattern::glob_body(s))) == s,
        !(read_on(fresh(), pattern::glob_body(s)).mode is Slash),
    decreases s.len(),
{
    if s.len() == 0 {
        assert(s =~= Seq::empty());
    } else {
        let front = s.drop_last();
        lemma_glob_body(front);
        let before = read_on(fresh(), pattern::glob_body(front));
        lemma_append(fresh(), pattern::glob_body(front), pattern::glob_char(s.last()));
        lemma_glob_char(before, s.last());
        assert(front.push(s.last()) =~= s);
    }
}

/// The pattern of a wildcard term matches whole texts only, and says between its anchors
/// what the term says: a point for `?`, a point and a star for `*`, and every other
/// character as itself.
pub proof fn law_glob(s: Seq<char>)
    ensures
        pattern::globbed(s).len() >= 2,
        pattern::globbed(s).first() == '^',
        pattern::globbed(s).last() == '$',
        settled(
            read_on(fresh(), pattern::globbed(s).subrange(1, pattern::globbed(s).len() - 1)),
        ) == s,
{
    let p = pattern::globbed(s);
    lemma_glob_body(s);
    assert(p.subrange(1, p.len() - 1) =~= pattern::glob_body(s));
}

/// The text that a pattern without anything but literal characters stands for; none where
/// another character has a meaning.
pub open spec fn literal(p: Seq<char>) -> Option<Seq<char>>
    decreases p.len(),
{
    if p.len() == 0 {
        Some(Seq::empty())
    } else if p[0] == '\\' {
        if p.len() == 1 {
            None
        } else {
            match literal(p.skip(2)) {
                Some(s) => Some(seq![p[1]] + s),
                None => None,
            }
        }
    } else if pattern::is_meta(p[0]) {
        None
    } else {
        match literal(p.skip(1)) {
            Some(s) => Some(seq![p[0]] + s),
            None => None,
        }
    }
}

proof fn lemma_literal(s: Seq<char>, rest: Seq<char>)
    ensures
        literal(pattern::escaped(s) + rest) == match literal(rest) {
            Some(t) => Some(s + t),
            None => None,
        },
    decreases s.len(),
{
    if s.len() == 0 {
        assert(pattern::escaped(s) + rest =~= rest);
        if literal(rest) is Some {
            assert(s + literal(rest)->0 =~= literal(rest)->0);
        }
    } else {
        let front = s.drop_last();
        let c = s.last();
        let e = pattern::escaped_char(c);
        lemma_literal(front, e + rest);
        assert(pattern::escaped(s) + rest =~= pattern::escaped(front) + (e + rest));
        let p = e + rest;
        if pattern::is_meta(c) {
            assert(p[0] == '\\' && p[1] == c);
            assert(p.skip(2) =~= rest);
        } else {
            assert(p[0] == c);
            assert(p.skip(1) =~= rest);
        }
        if literal(rest) is Some {
            let t = literal(rest)->0;
            assert(front + (seq![c] + t) =~= s + t);
        }
    }
}

/// The pattern of a whole word has a word boundary at either end and between them the
/// characters of the word, each as itself.
pub proof fn law_word_pattern(s: Seq<char>)
    ensures
        pattern::bounded(s).len() >= 4,
        pattern::bounded(s).take(2) == seq!['\\', 'b'],
        pattern::bounded(s).skip(pattern::bounded(s).len() - 2) == seq!['\\', 'b'],
        literal(pattern::bounded(s).subrange(2, pattern::bounded(s).len() - 2)) == Some(s),
{
    let p = pattern::bounded(s);
    let none = Seq::<char>::empty();
    lemma_literal(s, none);
    assert(p.subrange(2, p.len() - 2) =~= pattern::escaped(s) + none);
    assert(literal(none) == Some(none));
    assert(s + none =~= s);
    assert(p.take(2) =~= seq!['\\', 'b']);
    assert(p.skip(p.len() - 2) =~= seq!['\\', 'b']);
}

} // verus!
