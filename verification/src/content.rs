//! File-content search (`content:`): the terms in a query, the files worth
//! reading, how a body decodes to text, and whether it holds every term.

use crate::hit::Hit;
use crate::query;
use crate::query::{tokenize, Token, TokenView};
use crate::query_laws;
use crate::text;
use crate::text::{
    chars_of, contains_text, copy_range, is_text_ignore_case, is_whitespace,
    lowercase, squeeze, string_of,
};
use vstd::prelude::*;

verus! {

/// Never read more than this from one file (a term past it isn't matched).
pub const MAX_FILE_BYTES: u64 = 33_554_432;

/// Bytes inspected for a NUL (binary marker) before decoding.
pub const SNIFF_BYTES: usize = 8192;

/// `FILE_ATTRIBUTE_REPARSE_POINT`: symlinks, junctions and mount points. Skipped
/// so a candidate that resolves to an offline network target or a device can't
/// block a reader forever (the read is byte-bounded, not time-bounded).
pub const REPARSE_POINT: u32 = 0x0000_0400;

/// Whether `s` starts with `content:` in any letter case.
pub open spec fn starts_content(s: Seq<char>) -> bool {
    s.len() >= 8 && text::ascii_lowered(s.take(8)) == text::ascii_lowered("content:"@)
}

/// How many characters of `s` come before its first whitespace.
pub open spec fn until_space(s: Seq<char>) -> nat
    decreases s.len(),
{
    if s.len() == 0 || text::is_space(s[0]) {
        0
    } else {
        1 + until_space(s.drop_first())
    }
}

/// The content term at the start of `s`, which follows a `content:`: a quoted
/// text, or all up to the next whitespace.
pub open spec fn content_term(s: Seq<char>) -> Seq<char> {
    if s.len() > 0 && s[0] == '"' {
        let body = s.drop_first();
        body.take(query::until_quote(body) as int)
    } else {
        s.take(until_space(s) as int)
    }
}

/// What follows the content term at the start of `s`.
pub open spec fn after_term(s: Seq<char>) -> Seq<char> {
    if s.len() > 0 && s[0] == '"' {
        query::after_quote(s.drop_first())
    } else {
        s.skip(until_space(s) as int)
    }
}

/// The characters of `s` outside its `content:` terms, and the terms.
/// `at_boundary` says whether `s` follows whitespace or starts the query: only
/// there `content:` is a function. An empty term is dropped.
pub open spec fn split_content(s: Seq<char>, at_boundary: bool) -> (Seq<char>, Seq<Seq<char>>)
    decreases s.len(),
{
    if s.len() == 0 {
        (Seq::empty(), Seq::empty())
    } else if at_boundary && starts_content(s) {
        let body = s.skip(8);
        proof {
            lemma_until_space(body);
        }
        let (rest, terms) = split_content(after_term(body), false);
        (rest, text::flushed(content_term(body)) + terms)
    } else {
        let (rest, terms) = split_content(s.drop_first(), text::is_space(s[0]));
        (seq![s[0]] + rest, terms)
    }
}

/// The text before the first whitespace is a part of the text.
pub proof fn lemma_until_space(s: Seq<char>)
    ensures
        until_space(s) <= s.len(),
    decreases s.len(),
{
    if s.len() > 0 && !text::is_space(s[0]) {
        lemma_until_space(s.drop_first());
    }
}

/// What a query leaves without its `content:` terms: its words with single
/// spaces between them.
pub open spec fn content_rest(q: Seq<char>) -> Seq<char> {
    text::spaced(text::words_from(split_content(q, true).0, Seq::empty()))
}

/// The `content:` terms of a query.
pub open spec fn content_terms(q: Seq<char>) -> Seq<Seq<char>> {
    split_content(q, true).1
}

/// The end of the content term that starts at `from`, and the place after it.
fn term_bounds(chars: &Vec<char>, from: usize) -> (r: (usize, usize, usize))
    requires
        from <= chars@.len(),
    ensures
        from <= r.0 <= r.1 <= r.2 <= chars@.len(),
        chars@.subrange(r.0 as int, r.1 as int) == content_term(chars@.skip(from as int)),
        chars@.skip(r.2 as int) == after_term(chars@.skip(from as int)),
{
    let ghost s = chars@.skip(from as int);
    if from < chars.len() && chars[from] == '"' {
        let start: usize = from + 1;
        let ghost body = s.drop_first();
        assert(body =~= chars@.skip(start as int));
        let mut i: usize = start;
        while i < chars.len() && chars[i] != '"'
            invariant
                start <= i <= chars@.len(),
                body == chars@.skip(start as int),
                query::until_quote(body) == i - start + query::until_quote(chars@.skip(i as int)),
            decreases chars@.len() - i,
        {
            assert(chars@.skip(i as int).drop_first() =~= chars@.skip(i + 1));
            i += 1;
        }
        assert(query::until_quote(body) == i - start);
        assert(chars@.subrange(start as int, i as int) =~= body.take(i - start));
        if i < chars.len() {
            assert(chars@.skip(i + 1) =~= query::after_quote(body));
            (start, i, i + 1)
        } else {
            assert(chars@.skip(i as int) =~= query::after_quote(body));
            (start, i, i)
        }
    } else {
        let mut i: usize = from;
        while i < chars.len() && !is_whitespace(chars[i])
            invariant
                from <= i <= chars@.len(),
                s == chars@.skip(from as int),
                until_space(s) == i - from + until_space(chars@.skip(i as int)),
            decreases chars@.len() - i,
        {
            assert(chars@.skip(i as int).drop_first() =~= chars@.skip(i + 1));
            i += 1;
        }
        assert(until_space(s) == i - from);
        assert(chars@.subrange(from as int, i as int) =~= s.take(i - from));
        assert(chars@.skip(i as int) =~= s.skip(i - from));
        (from, i, i)
    }
}

/// Pull every `content:term` / `content:"phrase"` out of `query`, returning the
/// remaining filename/metadata query and the content terms (AND-combined).
///
/// Content matching reads file bodies and so is evaluated separately, over the
/// candidates the remaining query narrows to. An empty term (a bare `content:`)
/// is dropped.
pub fn extract_content(query: &str) -> (r: (String, Vec<String>))
    ensures
        r.0@ == content_rest(query@),
        r.1@.map_values(|t: String| t@) == content_terms(query@),
{
    let chars = chars_of(query);
    let mut rest: Vec<char> = Vec::new();
    let mut terms: Vec<String> = Vec::new();
    let mut at_boundary = true;
    let mut i: usize = 0;
    let ghost whole = split_content(query@, true);
    assert(chars@.skip(0) =~= chars@);
    assert(rest@ + whole.0 =~= whole.0);
    assert(terms@.map_values(|t: String| t@) + whole.1 =~= whole.1);
    while i < chars.len()
        invariant
            i <= chars@.len(),
            rest@ + split_content(chars@.skip(i as int), at_boundary).0 == whole.0,
            terms@.map_values(|t: String| t@) + split_content(
                chars@.skip(i as int),
                at_boundary,
            ).1 == whole.1,
        decreases chars@.len() - i,
    {
        let ghost s = chars@.skip(i as int);
        let is_content = at_boundary && chars.len() - i >= 8 && {
            let head = copy_range(chars.as_slice(), i, i + 8);
            assert(head@ =~= s.take(8));
            is_text_ignore_case(head.as_slice(), "content:")
        };
        if is_content {
            assert(s.skip(8) =~= chars@.skip(i + 8));
            let (start, end, next) = term_bounds(&chars, i + 8);
            let term = copy_range(chars.as_slice(), start, end);
            let ghost before = terms@.map_values(|t: String| t@);
            let ghost tail = split_content(after_term(s.skip(8)), false);
            if term.len() > 0 {
                terms.push(string_of(term.as_slice()));
            }
            assert(terms@.map_values(|t: String| t@) =~= before + text::flushed(term@));
            assert(terms@.map_values(|t: String| t@) + tail.1 =~= before + (text::flushed(term@)
                + tail.1));
            at_boundary = false;
            i = next;
        } else {
            let c = chars[i];
            let ghost before = rest@;
            assert(s.drop_first() =~= chars@.skip(i + 1));
            let ghost tail = split_content(s.drop_first(), text::is_space(c));
            rest.push(c);
            assert(rest@ + tail.0 =~= before + (seq![c] + tail.0));
            at_boundary = is_whitespace(c);
            i += 1;
        }
    }
    assert(rest@ =~= whole.0);
    assert(terms@.map_values(|t: String| t@) =~= whole.1);
    let words = squeeze(rest.as_slice());
    (string_of(words.as_slice()), terms)
}

/// How many groups are open after the tokens. A `)` that closes nothing is
/// passed over.
pub open spec fn open_groups(tokens: Seq<TokenView>) -> nat
    decreases tokens.len(),
{
    if tokens.len() == 0 {
        0
    } else {
        let before = open_groups(tokens.drop_last());
        match tokens.last() {
            TokenView::Open => before + 1,
            TokenView::Close => if before > 0 {
                (before - 1) as nat
            } else {
                0
            },
            _ => before,
        }
    }
}

/// Whether no `|` of the tokens stands outside every group.
pub open spec fn scope_ok(tokens: Seq<TokenView>) -> bool {
    forall|i: int|
        0 <= i < tokens.len() && #[trigger] tokens[i] == TokenView::Or ==> open_groups(
            tokens.take(i),
        ) > 0
}

/// Whether `content:` terms can apply to every result of the query: its `|`
/// operators all stand inside parentheses.
pub fn content_scope_ok(query: &str) -> (r: bool)
    ensures
        r == scope_ok(query::tokens_of(query@)),
{
    let tokens = tokenize(query);
    let ghost words = query::views(tokens@);
    let mut open: usize = 0;
    let mut i: usize = 0;
    assert(words.take(0) =~= Seq::empty());
    while i < tokens.len()
        invariant
            i <= tokens@.len(),
            open <= i,
            words == query::views(tokens@),
            words == query::tokens_of(query@),
            open == open_groups(words.take(i as int)),
            forall|k: int|
                0 <= k < i && #[trigger] words[k] == TokenView::Or ==> open_groups(words.take(k))
                    > 0,
        decreases tokens@.len() - i,
    {
        assert(words.take(i + 1).drop_last() =~= words.take(i as int));
        assert(words[i as int] == tokens@[i as int]@);
        match &tokens[i] {
            Token::Or => {
                if open == 0 {
                    assert(words[i as int] == TokenView::Or);
                    return false;
                }
            },
            Token::Open => {
                open += 1;
            },
            Token::Close => {
                if open > 0 {
                    open -= 1;
                }
            },
            _ => {},
        }
        i += 1;
    }
    true
}

/// Where the parentheses of a query nest, `content:` is in scope exactly when the
/// query has a single alternative, so that its terms are AND-combined.
pub proof fn law_scope(tokens: Seq<TokenView>)
    requires
        query_laws::nested(tokens),
    ensures
        scope_ok(tokens) == query_laws::single_alternative(tokens),
{
    assert forall|i: int| 0 <= i <= tokens.len() implies open_groups(#[trigger] tokens.take(i))
        == query_laws::depth(tokens.take(i)) by {
        lemma_open_groups(tokens, i);
    }
    if scope_ok(tokens) {
        assert forall|i: int|
            0 <= i < tokens.len() && #[trigger] tokens[i] == TokenView::Or implies query_laws::depth(
            tokens.take(i),
        ) > 0 by {
            assert(open_groups(tokens.take(i)) > 0);
        }
    }
    if query_laws::single_alternative(tokens) {
        assert forall|i: int|
            0 <= i < tokens.len() && #[trigger] tokens[i] == TokenView::Or implies open_groups(
            tokens.take(i),
        ) > 0 by {
            assert(query_laws::depth(tokens.take(i)) > 0);
        }
    }
}

proof fn lemma_open_groups(tokens: Seq<TokenView>, i: int)
    requires
        query_laws::nested(tokens),
        0 <= i <= tokens.len(),
    ensures
        open_groups(tokens.take(i)) == query_laws::depth(tokens.take(i)),
    decreases i,
{
    if i > 0 {
        lemma_open_groups(tokens, i - 1);
        assert(tokens.take(i).drop_last() =~= tokens.take(i - 1));
        assert(query_laws::depth(tokens.take(i)) >= 0);
    }
}

/// The 16-bit units of the bytes, two bytes each; an odd last byte is left out.
pub open spec fn units(bytes: Seq<u8>, little_endian: bool) -> Seq<u16>
    decreases bytes.len(),
{
    if bytes.len() < 2 {
        Seq::empty()
    } else {
        let unit = if little_endian {
            (bytes[0] + bytes[1] * 256) as u16
        } else {
            (bytes[0] * 256 + bytes[1]) as u16
        };
        seq![unit] + units(bytes.skip(2), little_endian)
    }
}

/// Whether a unit is the first half of a surrogate pair.
pub open spec fn is_high(u: u16) -> bool {
    0xD800 <= u <= 0xDBFF
}

/// Whether a unit is the second half of a surrogate pair.
pub open spec fn is_low(u: u16) -> bool {
    0xDC00 <= u <= 0xDFFF
}

/// The text that UTF-16 units stand for, with U+FFFD for each half of a pair that
/// stands alone.
pub open spec fn utf16_text(s: Seq<u16>) -> Seq<char>
    decreases s.len(),
{
    if s.len() == 0 {
        Seq::empty()
    } else if s.len() >= 2 && is_high(s[0]) && is_low(s[1]) {
        let c = (0x10000 + (s[0] - 0xD800) * 0x400 + (s[1] - 0xDC00)) as char;
        seq![c] + utf16_text(s.skip(2))
    } else if is_high(s[0]) || is_low(s[0]) {
        seq!['\u{FFFD}'] + utf16_text(s.skip(1))
    } else {
        seq![s[0] as char] + utf16_text(s.skip(1))
    }
}

/// `String::from_utf16_lossy`: the text of the units, with the replacement
/// character for invalid data.
#[verifier::external_body]
pub(crate) fn utf16_lossy(s: &Vec<u16>) -> (r: String)
    ensures
        r@ == utf16_text(s@),
{
    String::from_utf16_lossy(s)
}

/// The text that bytes stand for as UTF-8, with U+FFFD in the place of invalid
/// sequences.
pub uninterp spec fn utf8_text(bytes: Seq<u8>) -> Seq<char>;

/// `String::from_utf8_lossy`: the text of the bytes. Valid UTF-8 is decoded as it
/// is; how many replacement characters invalid bytes become is left unsaid.
#[verifier::external_body]
fn utf8_lossy(bytes: &[u8]) -> (r: String)
    ensures
        r@ == utf8_text(bytes@),
        vstd::utf8::valid_utf8(bytes@) ==> r@ == vstd::utf8::decode_utf8(bytes@),
{
    String::from_utf8_lossy(bytes).into_owned()
}

/// Whether the bytes start with the two given ones.
pub open spec fn has_mark(bytes: Seq<u8>, a: u8, b: u8) -> bool {
    bytes.len() >= 2 && bytes[0] == a && bytes[1] == b
}

/// The text of a file body: UTF-16 behind a byte-order mark, and UTF-8
/// otherwise; nothing when a NUL near the start marks it as binary.
pub open spec fn decoded(bytes: Seq<u8>) -> Option<Seq<char>> {
    if has_mark(bytes, 0xFF, 0xFE) {
        Some(utf16_text(units(bytes.skip(2), true)))
    } else if has_mark(bytes, 0xFE, 0xFF) {
        Some(utf16_text(units(bytes.skip(2), false)))
    } else if exists|i: int| 0 <= i < bytes.len() && i < SNIFF_BYTES && bytes[i] == 0 {
        None
    } else {
        Some(utf8_text(bytes))
    }
}

/// Whether a file body is UTF-8 text without a byte-order mark of UTF-16.
pub open spec fn is_plain(bytes: Seq<u8>) -> bool {
    !has_mark(bytes, 0xFF, 0xFE) && !has_mark(bytes, 0xFE, 0xFF) && vstd::utf8::valid_utf8(bytes)
}

/// The text of the UTF-16 bytes from `from` on.
pub(crate) fn decode_utf16(bytes: &[u8], from: usize, little_endian: bool) -> (r: String)
    requires
        from <= bytes@.len(),
    ensures
        r@ == utf16_text(units(bytes@.skip(from as int), little_endian)),
{
    let ghost all = units(bytes@.skip(from as int), little_endian);
    let mut out: Vec<u16> = Vec::new();
    let mut i: usize = from;
    assert(out@ + all =~= all);
    while bytes.len() - i >= 2
        invariant
            from <= i <= bytes@.len(),
            out@ + units(bytes@.skip(i as int), little_endian) == all,
        decreases bytes@.len() - i,
    {
        let ghost s = bytes@.skip(i as int);
        let ghost before = out@;
        assert(s.skip(2) =~= bytes@.skip(i + 2));
        let a: u16 = bytes[i] as u16;
        let b: u16 = bytes[i + 1] as u16;
        let unit: u16 = if little_endian {
            a + b * 256
        } else {
            a * 256 + b
        };
        out.push(unit);
        assert(out@ + units(s.skip(2), little_endian) =~= before + (seq![unit] + units(
            s.skip(2),
            little_endian,
        )));
        i += 2;
    }
    assert(units(bytes@.skip(i as int), little_endian) =~= Seq::empty());
    assert(out@ =~= all);
    utf16_lossy(&out)
}

/// Decode a file body to text, or `None` when it looks binary. BOM-marked UTF-16
/// (Windows "Unicode" text) is decoded before the NUL heuristic, which would
/// otherwise read its high bytes as "binary".
pub fn decode(bytes: &[u8]) -> (r: Option<String>)
    ensures
        r is Some <==> decoded(bytes@) is Some,
        r matches Some(t) ==> Some(t@) == decoded(bytes@),
        r matches Some(t) ==> (is_plain(bytes@) ==> t@ == vstd::utf8::decode_utf8(bytes@)),
{
    if bytes.len() >= 2 && bytes[0] == 0xFF && bytes[1] == 0xFE {
        return Some(decode_utf16(bytes, 2, true));
    }
    if bytes.len() >= 2 && bytes[0] == 0xFE && bytes[1] == 0xFF {
        return Some(decode_utf16(bytes, 2, false));
    }
    let mut i: usize = 0;
    while i < bytes.len() && i < SNIFF_BYTES
        invariant
            i <= bytes@.len(),
            i <= SNIFF_BYTES,
            !has_mark(bytes@, 0xFF, 0xFE),
            !has_mark(bytes@, 0xFE, 0xFF),
            forall|k: int| 0 <= k < i ==> bytes@[k] != 0,
        decreases bytes@.len() - i,
    {
        if bytes[i] == 0 {
            return None;
        }
        i += 1;
    }
    Some(utf8_lossy(bytes))
}

/// What a content term is looked for as.
pub open spec fn needle(term: Seq<char>, match_case: bool) -> Seq<char> {
    if match_case {
        term
    } else {
        text::lower(term)
    }
}

/// What the content terms are looked for as: folded unless `match_case`.
pub fn content_needles(terms: &Vec<String>, match_case: bool) -> (r: Vec<String>)
    ensures
        r@.len() == terms@.len(),
        forall|i: int| 0 <= i < terms@.len() ==> #[trigger] r@[i]@ == needle(terms@[i]@, match_case),
{
    let mut out: Vec<String> = Vec::new();
    let mut i: usize = 0;
    while i < terms.len()
        invariant
            i <= terms@.len(),
            out@.len() == i,
            forall|k: int| 0 <= k < i ==> #[trigger] out@[k]@ == needle(terms@[k]@, match_case),
        decreases terms@.len() - i,
    {
        if match_case {
            out.push(terms[i].clone());
        } else {
            out.push(lowercase(terms[i].as_str()));
        }
        i += 1;
    }
    out
}

/// Whether the body of a result is worth reading: not for a directory, nor behind
/// a reparse point.
pub fn wants_body(hit: &Hit) -> (r: bool)
    ensures
        r == (!hit.is_dir && hit.attributes & REPARSE_POINT == 0),
{
    !hit.is_dir && hit.attributes & REPARSE_POINT == 0
}

/// Whether a text holds every needle.
pub open spec fn text_holds(t: Seq<char>, needles: Seq<String>, match_case: bool) -> bool {
    forall|i: int|
        0 <= i < needles.len() ==> text::has_text(needle(t, match_case), (#[trigger] needles[i])@)
}

/// Whether a body decodes to a text that holds every needle.
pub open spec fn body_holds(bytes: Seq<u8>, needles: Seq<String>, match_case: bool) -> bool {
    decoded(bytes) matches Some(t) && text_holds(t, needles, match_case)
}

/// Whether a file body holds every one of the `needles`, which
/// [`content_needles`] has prepared. A binary body holds none.
pub fn body_contains_all(bytes: &[u8], needles: &Vec<String>, match_case: bool) -> (r: bool)
    ensures
        r == body_holds(bytes@, needles@, match_case),
        is_plain(bytes@) && decoded(bytes@) is Some ==> r == text_holds(
            vstd::utf8::decode_utf8(bytes@),
            needles@,
            match_case,
        ),
{
    match decode(bytes) {
        None => false,
        Some(t) => {
            let hay = if match_case {
                t.clone()
            } else {
                lowercase(t.as_str())
            };
            let mut i: usize = 0;
            while i < needles.len()
                invariant
                    i <= needles@.len(),
                    decoded(bytes@) == Some(t@),
                    is_plain(bytes@) ==> t@ == vstd::utf8::decode_utf8(bytes@),
                    hay@ == needle(t@, match_case),
                    forall|k: int|
                        0 <= k < i ==> text::has_text(hay@, (#[trigger] needles@[k])@),
                decreases needles@.len() - i,
            {
                if !contains_text(hay.as_str(), needles[i].as_str()) {
                    return false;
                }
                i += 1;
            }
            true
        },
    }
}

/// Whether a result with this body stays: its body is worth reading, could be read,
/// and holds every needle.
pub open spec fn stays(
    hit: Hit,
    body: Option<Seq<u8>>,
    needles: Seq<String>,
    match_case: bool,
) -> bool {
    &&& !hit.is_dir
    &&& hit.attributes & REPARSE_POINT == 0
    &&& body matches Some(b) && body_holds(b, needles, match_case)
}

/// Whether a candidate stays, given the first [`MAX_FILE_BYTES`] of its body, or
/// `None` when it could not be read or the scan was superseded.
pub fn keeps(hit: &Hit, body: Option<&[u8]>, needles: &Vec<String>, match_case: bool) -> (r: bool)
    ensures
        r == stays(
            *hit,
            match body {
                Some(b) => Some(b@),
                None => None,
            },
            needles@,
            match_case,
        ),
{
    if !wants_body(hit) {
        return false;
    }
    match body {
        Some(b) => body_contains_all(b, needles, match_case),
        None => false,
    }
}

/// The items at whose place a `true` stands, in order.
pub open spec fn picked<T>(items: Seq<T>, matched: Seq<bool>) -> Seq<T>
    decreases items.len(),
{
    if items.len() == 0 || matched.len() == 0 {
        Seq::empty()
    } else {
        let front = picked(items.drop_first(), matched.drop_first());
        if matched[0] {
            seq![items[0]] + front
        } else {
            front
        }
    }
}

/// Keep the candidates that [`keeps`] says stay, in order.
pub fn filter_by_content(hits: Vec<Hit>, matched: &Vec<bool>) -> (r: Vec<Hit>)
    ensures
        r@ == picked(hits@, matched@),
{
    let mut out: Vec<Hit> = Vec::new();
    let mut i: usize = 0;
    let ghost all = picked(hits@, matched@);
    assert(hits@.skip(0) =~= hits@);
    assert(matched@.skip(0) =~= matched@);
    assert(out@ + all =~= all);
    while i < hits.len() && i < matched.len()
        invariant
            i <= hits@.len(),
            i <= matched@.len(),
            out@ + picked(hits@.skip(i as int), matched@.skip(i as int)) == all,
        decreases hits@.len() - i,
    {
        assert(hits@.skip(i as int).drop_first() =~= hits@.skip(i + 1));
        assert(matched@.skip(i as int).drop_first() =~= matched@.skip(i + 1));
        let ghost before = out@;
        let ghost rest = picked(hits@.skip(i + 1), matched@.skip(i + 1));
        if matched[i] {
            out.push(hits[i].clone());
            assert(out@ + rest =~= before + (seq![hits@[i as int]] + rest));
        }
        i += 1;
    }
    assert(picked(hits@.skip(i as int), matched@.skip(i as int)) =~= Seq::empty());
    assert(out@ =~= all);
    out
}

/// A content search gives nothing but candidates, each of which stays.
pub proof fn law_picked<T>(items: Seq<T>, matched: Seq<bool>, k: int)
    requires
        0 <= k < picked(items, matched).len(),
    ensures
        exists|i: int|
            0 <= i < items.len() && i < matched.len() && matched[i] && #[trigger] items[i]
                == picked(items, matched)[k],
    decreases items.len(),
{
    let front = picked(items.drop_first(), matched.drop_first());
    if matched[0] && k == 0 {
        assert(items[0] == picked(items, matched)[k]);
    } else {
        let j = if matched[0] {
            k - 1
        } else {
            k
        };
        law_picked(items.drop_first(), matched.drop_first(), j);
        let i = choose|i: int|
            0 <= i < items.drop_first().len() && i < matched.drop_first().len()
                && matched.drop_first()[i] && #[trigger] items.drop_first()[i] == front[j];
        assert(items[i + 1] == picked(items, matched)[k]);
        assert(matched[i + 1]);
    }
}

} // verus!
