//! Regular expressions: the wildcard and whole-word patterns, and the outside
//! engine that compiles and runs them.

use crate::text::chars_of;
use regex::{Regex, RegexBuilder};
use vstd::prelude::*;
use vstd::string::*;

verus! {

/// A compiled regular expression of the `regex` crate.
#[verifier::external_type_specification]
#[verifier::external_body]
pub struct ExRegex(regex::Regex);

/// An error of the `regex` crate.
#[verifier::external_type_specification]
#[verifier::external_body]
pub struct ExRegexError(regex::Error);

/// The pattern that an expression was compiled from, and whether letter case is
/// ignored.
pub uninterp spec fn regex_source(re: Regex) -> (Seq<char>, bool);

/// Whether a pattern matches somewhere in a text, by the syntax of the `regex`
/// crate.
pub uninterp spec fn regex_matches(pattern: Seq<char>, ignore_case: bool, hay: Seq<char>) -> bool;

/// `RegexBuilder::build`: compile a pattern, with letter case ignored or not and
/// a bound on the compiled size. Whether that succeeds is left open: it depends
/// on the syntax, and on how large the compiled form is on the machine.
#[verifier::external_body]
fn compile_regex(pattern: &str, ignore_case: bool, size_limit: usize) -> (r: Result<
    Regex,
    regex::Error,
>)
    ensures
        r matches Ok(re) ==> regex_source(re) == (pattern@, ignore_case),
{
    RegexBuilder::new(pattern).case_insensitive(ignore_case).size_limit(size_limit).build()
}

/// `Regex::is_match`: whether the expression matches somewhere in the text, which
/// depends on the pattern, the case flag and the text alone.
#[verifier::external_body]
pub(crate) fn regex_is_match(re: &Regex, hay: &str) -> (r: bool)
    ensures
        r == regex_matches(regex_source(*re).0, regex_source(*re).1, hay@),
{
    re.is_match(hay)
}

/// The message of an error, by its `Display`.
pub uninterp spec fn regex_error_text(e: regex::Error) -> Seq<char>;

/// `ToString::to_string` of an error: its message.
#[verifier::external_body]
fn error_text(e: &regex::Error) -> (r: String)
    ensures
        r@ == regex_error_text(*e),
{
    e.to_string()
}

/// Whether the engine can compile a pattern to `re` within 4 MiB.
pub closed spec fn accepted(pattern: Seq<char>, ignore_case: bool, re: Regex) -> bool {
    exists|s: &str| (#[trigger] s@) == pattern && call_ensures(
        compile_regex,
        (s, ignore_case, 0x40_0000usize),
        Ok::<Regex, regex::Error>(re),
    )
}

/// Whether the engine can compile a pattern within 4 MiB.
pub open spec fn accepts(pattern: Seq<char>, ignore_case: bool) -> bool {
    exists|re: Regex| #[trigger] accepted(pattern, ignore_case, re)
}

/// Whether the engine can refuse a pattern, whose compiled form may take 4 MiB, with
/// the error `e`.
pub closed spec fn refused(pattern: Seq<char>, ignore_case: bool, e: regex::Error) -> bool {
    exists|s: &str| (#[trigger] s@) == pattern && call_ensures(
        compile_regex,
        (s, ignore_case, 0x40_0000usize),
        Err::<Regex, regex::Error>(e),
    )
}

/// Whether the engine can refuse a pattern.
pub open spec fn refuses(pattern: Seq<char>, ignore_case: bool) -> bool {
    exists|e: regex::Error| #[trigger] refused(pattern, ignore_case, e)
}

/// Whether `message` is that of an error with which the engine can refuse a pattern.
pub open spec fn refused_saying(
    pattern: Seq<char>,
    ignore_case: bool,
    message: Seq<char>,
) -> bool {
    exists|e: regex::Error| #[trigger]
        refused(pattern, ignore_case, e) && message == regex_error_text(e)
}

/// Compile a pattern whose compiled form may take 4 MiB, or say why the engine
/// refused it.
pub fn build_regex(pattern: &str, match_case: bool) -> (r: Result<Regex, String>)
    ensures
        r matches Ok(re) ==> accepted(pattern@, !match_case, re) && regex_source(re) == (
            pattern@,
            !match_case,
        ),
        r matches Err(m) ==> refused_saying(pattern@, !match_case, m@),
{
    match compile_regex(pattern, !match_case, 0x40_0000) {
        Ok(re) => {
            assert(accepted(pattern@, !match_case, re));
            Ok(re)
        },
        Err(e) => {
            assert(refused(pattern@, !match_case, e));
            Err(error_text(&e))
        },
    }
}

/// Whether `c` has a meaning of its own in a pattern.
pub open spec fn is_meta(c: char) -> bool {
    ||| c == '\\'
    ||| c == '.'
    ||| c == '+'
    ||| c == '*'
    ||| c == '?'
    ||| c == '('
    ||| c == ')'
    ||| c == '|'
    ||| c == '['
    ||| c == ']'
    ||| c == '{'
    ||| c == '}'
    ||| c == '^'
    ||| c == '$'
    ||| c == '#'
    ||| c == '&'
    ||| c == '-'
    ||| c == '~'
}

/// The pattern for one literal character.
pub open spec fn escaped_char(c: char) -> Seq<char> {
    if is_meta(c) {
        seq!['\\', c]
    } else {
        seq![c]
    }
}

/// The pattern for a literal text.
pub open spec fn escaped(s: Seq<char>) -> Seq<char>
    decreases s.len(),
{
    if s.len() == 0 {
        Seq::empty()
    } else {
        escaped(s.drop_last()) + escaped_char(s.last())
    }
}

/// `regex::escape`: the text with a backslash before each character that has a
/// meaning in a pattern.
#[verifier::external_body]
fn escape(s: &str) -> (r: String)
    ensures
        r@ == escaped(s@),
{
    regex::escape(s)
}

/// What one character of a wildcard term becomes in the pattern: `*` any run,
/// `?` any one character, another one itself.
pub open spec fn glob_char(c: char) -> Seq<char> {
    if c == '*' {
        seq!['.', '*']
    } else if c == '?' {
        seq!['.']
    } else {
        escaped_char(c)
    }
}

/// What a wildcard term becomes, one character after the other.
pub open spec fn glob_body(s: Seq<char>) -> Seq<char>
    decreases s.len(),
{
    if s.len() == 0 {
        Seq::empty()
    } else {
        glob_body(s.drop_last()) + glob_char(s.last())
    }
}

/// The pattern for a wildcard term, which matches whole texts only.
pub open spec fn globbed(s: Seq<char>) -> Seq<char> {
    seq!['^'] + glob_body(s) + seq!['$']
}

/// The pattern for a literal text between word boundaries.
pub open spec fn bounded(s: Seq<char>) -> Seq<char> {
    seq!['\\', 'b'] + escaped(s) + seq!['\\', 'b']
}

/// Translate a `*`/`?` wildcard term into an anchored pattern.
pub fn glob_pattern(glob: &str) -> (r: String)
    ensures
        r@ == globbed(glob@),
{
    let chars = chars_of(glob);
    let mut p = String::new();
    p.push('^');
    let mut literal = String::new();
    let mut i: usize = 0;
    assert(p@ + escaped(literal@) =~= seq!['^'] + glob_body(chars@.take(0)));
    while i < chars.len()
        invariant
            i <= chars@.len(),
            p@ + escaped(literal@) == seq!['^'] + glob_body(chars@.take(i as int)),
        decreases chars@.len() - i,
    {
        let c = chars[i];
        let ghost before = seq!['^'] + glob_body(chars@.take(i as int));
        assert(chars@.take(i + 1).drop_last() =~= chars@.take(i as int));
        if c == '*' || c == '?' {
            if !is_empty(&literal) {
                let quoted = escape(literal.as_str());
                p.append(quoted.as_str());
                literal = String::new();
            }
            assert(p@ =~= before);
            p.push('.');
            if c == '*' {
                p.push('*');
            }
            assert(p@ + escaped(literal@) =~= before + glob_char(c));
        } else {
            let ghost start = literal@;
            literal.push(c);
            assert(literal@.drop_last() =~= start);
            assert(p@ + escaped(literal@) =~= before + glob_char(c));
        }
        assert(before + glob_char(c) =~= seq!['^'] + glob_body(chars@.take(i + 1)));
        i += 1;
    }
    assert(chars@.take(i as int) =~= chars@);
    if !is_empty(&literal) {
        let quoted = escape(literal.as_str());
        p.append(quoted.as_str());
    }
    assert(p@ =~= seq!['^'] + glob_body(glob@));
    p.push('$');
    assert(p@ =~= globbed(glob@));
    p
}

/// Whether the text is empty.
fn is_empty(s: &String) -> (r: bool)
    ensures
        r == (s@.len() == 0),
        r ==> escaped(s@) == Seq::<char>::empty(),
{
    s.as_str().is_empty()
}

/// The pattern for a literal text between word boundaries.
pub fn word_pattern(token: &str) -> (r: String)
    ensures
        r@ == bounded(token@),
{
    let mut p = String::new();
    p.push('\\');
    p.push('b');
    let quoted = escape(token);
    p.append(quoted.as_str());
    p.push('\\');
    p.push('b');
    assert(p@ =~= bounded(token@));
    p
}

} // verus!
