//! Text primitives: character vectors, whitespace, ASCII folding, ordering,
//! substring tests and decimal numbers.

use vstd::prelude::*;
use vstd::string::*;

verus! {

/// `String::push` appends one character.
pub assume_specification[ String::push ](s: &mut String, c: char)
    ensures
        final(s)@ == old(s)@.push(c),
;

/// The characters of `s`, in order.
pub(crate) fn chars_of(s: &str) -> (r: Vec<char>)
    ensures
        r@ == s@,
{
    let mut out: Vec<char> = Vec::new();
    for c in it: s.chars()
        invariant
            out@ == s@.take(it.index()),
            it.seq() == s@,
    {
        out.push(c);
        assert(s@.take(it.index() + 1) =~= s@.take(it.index()).push(c));
    }
    assert(s@.take(s@.len() as int) =~= s@);
    out
}

/// The text made of `chars`.
pub(crate) fn string_of(chars: &[char]) -> (r: String)
    ensures
        r@ == chars@,
{
    let mut out: String = String::new();
    let mut i: usize = 0;
    while i < chars.len()
        invariant
            i <= chars@.len(),
            out@ == chars@.take(i as int),
        decreases chars@.len() - i,
    {
        out.push(chars[i]);
        assert(chars@.take(i + 1) =~= chars@.take(i as int).push(chars@[i as int]));
        i += 1;
    }
    assert(chars@.take(i as int) =~= chars@);
    out
}

/// Whether `c` has the Unicode `White_Space` property.
pub open spec fn is_space(c: char) -> bool {
    let u = c as u32;
    ||| 0x9 <= u <= 0xD
    ||| u == 0x20
    ||| u == 0x85
    ||| u == 0xA0
    ||| u == 0x1680
    ||| 0x2000 <= u <= 0x200A
    ||| u == 0x2028
    ||| u == 0x2029
    ||| u == 0x202F
    ||| u == 0x205F
    ||| u == 0x3000
}

/// Whether `c` is whitespace, as `char::is_whitespace` has it.
pub fn is_whitespace(c: char) -> (r: bool)
    ensures
        r == is_space(c),
{
    let u: u32 = c as u32;
    (0x9 <= u && u <= 0xD) || u == 0x20 || u == 0x85 || u == 0xA0 || u == 0x1680 || (0x2000 <= u
        && u <= 0x200A) || u == 0x2028 || u == 0x2029 || u == 0x202F || u == 0x205F || u == 0x3000
}

/// `s` without its leading whitespace.
pub open spec fn trimmed_start(s: Seq<char>) -> Seq<char>
    decreases s.len(),
{
    if s.len() > 0 && is_space(s[0]) {
        trimmed_start(s.drop_first())
    } else {
        s
    }
}

/// `s` without its trailing whitespace.
pub open spec fn trimmed_end(s: Seq<char>) -> Seq<char>
    decreases s.len(),
{
    if s.len() > 0 && is_space(s.last()) {
        trimmed_end(s.drop_last())
    } else {
        s
    }
}

/// `s` without leading and trailing whitespace.
pub open spec fn trimmed(s: Seq<char>) -> Seq<char> {
    trimmed_end(trimmed_start(s))
}

/// A copy of `s` without leading and trailing whitespace.
pub(crate) fn trim(s: &[char]) -> (r: Vec<char>)
    ensures
        r@ == trimmed(s@),
{
    let mut from: usize = 0;
    assert(s@.skip(0) =~= s@);
    while from < s.len() && is_whitespace(s[from])
        invariant
            from <= s@.len(),
            trimmed_start(s@) == trimmed_start(s@.skip(from as int)),
        decreases s@.len() - from,
    {
        assert(s@.skip(from as int).drop_first() =~= s@.skip(from + 1));
        from += 1;
    }
    let ghost mid = s@.skip(from as int);
    assert(trimmed_start(s@) == mid);
    let mut to: usize = s.len();
    assert(s@.subrange(from as int, to as int) =~= mid);
    while to > from && is_whitespace(s[to - 1])
        invariant
            from <= to <= s@.len(),
            trimmed_end(mid) == trimmed_end(s@.subrange(from as int, to as int)),
        decreases to,
    {
        assert(s@.subrange(from as int, to as int).drop_last() =~= s@.subrange(
            from as int,
            to - 1,
        ));
        to -= 1;
    }
    copy_range(s, from, to)
}

/// A copy of `s[from..to]`.
pub(crate) fn copy_range(s: &[char], from: usize, to: usize) -> (r: Vec<char>)
    requires
        from <= to <= s@.len(),
    ensures
        r@ == s@.subrange(from as int, to as int),
{
    let mut out: Vec<char> = Vec::new();
    let mut i: usize = from;
    while i < to
        invariant
            from <= i <= to <= s@.len(),
            out@ == s@.subrange(from as int, i as int),
        decreases to - i,
    {
        out.push(s[i]);
        assert(s@.subrange(from as int, i + 1) =~= s@.subrange(from as int, i as int).push(
            s@[i as int],
        ));
        i += 1;
    }
    out
}

/// `c` with an ASCII capital letter folded to its small letter.
pub open spec fn ascii_lower(c: char) -> char {
    if 'A' <= c <= 'Z' {
        ((c as u8 + 32) as u8) as char
    } else {
        c
    }
}

/// `s` with its ASCII capital letters folded.
pub open spec fn ascii_lowered(s: Seq<char>) -> Seq<char> {
    s.map_values(|c: char| ascii_lower(c))
}

/// Fold one ASCII capital letter.
pub(crate) fn to_ascii_lower(c: char) -> (r: char)
    ensures
        r == ascii_lower(c),
{
    if 'A' <= c && c <= 'Z' {
        ((c as u8) + 32) as char
    } else {
        c
    }
}

/// A copy of `s` with its ASCII capital letters folded.
pub(crate) fn ascii_lower_chars(s: &[char]) -> (r: Vec<char>)
    ensures
        r@ == ascii_lowered(s@),
{
    let mut out: Vec<char> = Vec::new();
    let mut i: usize = 0;
    while i < s.len()
        invariant
            i <= s@.len(),
            out@.len() == i,
            forall|j: int| 0 <= j < i ==> out@[j] == ascii_lower(s@[j]),
        decreases s@.len() - i,
    {
        out.push(to_ascii_lower(s[i]));
        i += 1;
    }
    assert(out@ =~= ascii_lowered(s@));
    out
}

/// Whether every character of `s` is ASCII.
pub open spec fn all_ascii(s: Seq<char>) -> bool {
    forall|i: int| 0 <= i < s.len() ==> (#[trigger] s[i] as u32) < 128
}

/// The Unicode lowercase of `s`, as `str::to_lowercase` gives it.
pub uninterp spec fn lower(s: Seq<char>) -> Seq<char>;

/// `str::to_lowercase`: the Unicode lowercase of the text. Of ASCII text it is
/// the text with its capital letters folded one by one; of other text only that
/// it depends on the text alone.
#[verifier::external_body]
pub(crate) fn lowercase(s: &str) -> (r: String)
    ensures
        r@ == lower(s@),
        all_ascii(s@) ==> r@ == ascii_lowered(s@),
{
    s.to_lowercase()
}

/// Whether `needle` occurs in `hay` at `at`.
pub open spec fn occurs_at(hay: Seq<char>, needle: Seq<char>, at: int) -> bool {
    0 <= at && at + needle.len() <= hay.len() && hay.subrange(at, at + needle.len()) == needle
}

/// Whether `needle` occurs in `hay`.
pub open spec fn has_text(hay: Seq<char>, needle: Seq<char>) -> bool {
    exists|at: int| occurs_at(hay, needle, at)
}

/// `str::contains` with a text pattern: whether the pattern is a sub-slice.
#[verifier::external_body]
pub(crate) fn contains_text(hay: &str, needle: &str) -> (r: bool)
    ensures
        r == has_text(hay@, needle@),
{
    hay.contains(needle)
}

/// Whether `s` holds the character `c`.
pub(crate) fn contains_char(s: &[char], c: char) -> (r: bool)
    ensures
        r == s@.contains(c),
{
    let mut i: usize = 0;
    while i < s.len()
        invariant
            i <= s@.len(),
            forall|j: int| 0 <= j < i ==> s@[j] != c,
        decreases s@.len() - i,
    {
        if s[i] == c {
            return true;
        }
        i += 1;
    }
    false
}

/// Whether the two texts hold the same characters.
pub(crate) fn same_chars(a: &[char], b: &[char]) -> (r: bool)
    ensures
        r == (a@ == b@),
{
    if a.len() != b.len() {
        return false;
    }
    let mut i: usize = 0;
    while i < a.len()
        invariant
            i <= a@.len(),
            a@.len() == b@.len(),
            forall|j: int| 0 <= j < i ==> a@[j] == b@[j],
        decreases a@.len() - i,
    {
        if a[i] != b[i] {
            return false;
        }
        i += 1;
    }
    assert(a@ =~= b@);
    true
}

/// Whether `s` is the text `t`.
pub(crate) fn is_text(s: &[char], t: &str) -> (r: bool)
    ensures
        r == (s@ == t@),
{
    let chars = chars_of(t);
    same_chars(s, chars.as_slice())
}

/// Whether `a` and `b` are the same text.
pub(crate) fn same_text(a: &str, b: &str) -> (r: bool)
    ensures
        r == (a@ == b@),
{
    let chars = chars_of(a);
    is_text(chars.as_slice(), b)
}

/// Whether `s` is the text `t` up to ASCII case.
pub(crate) fn is_text_ignore_case(s: &[char], t: &str) -> (r: bool)
    ensures
        r == (ascii_lowered(s@) == ascii_lowered(t@)),
{
    let a = ascii_lower_chars(s);
    let chars = chars_of(t);
    let b = ascii_lower_chars(chars.as_slice());
    same_chars(a.as_slice(), b.as_slice())
}

/// Whether `s` starts with `prefix`.
pub open spec fn has_prefix(s: Seq<char>, prefix: Seq<char>) -> bool {
    prefix.len() <= s.len() && s.take(prefix.len() as int) == prefix
}

/// What follows `prefix` in `s`, when `s` starts with it.
pub(crate) fn strip_prefix(s: &[char], prefix: &str) -> (r: Option<Vec<char>>)
    ensures
        r is Some <==> has_prefix(s@, prefix@),
        r matches Some(v) ==> v@ == s@.skip(prefix@.len() as int),
{
    let p = chars_of(prefix);
    if p.len() > s.len() {
        return None;
    }
    let head = copy_range(s, 0, p.len());
    assert(s@.take(p@.len() as int) =~= head@);
    if same_chars(head.as_slice(), p.as_slice()) {
        assert(s@.skip(p@.len() as int) =~= s@.subrange(p@.len() as int, s@.len() as int));
        Some(copy_range(s, p.len(), s.len()))
    } else {
        None
    }
}

/// Lexicographic order by code point.
pub open spec fn text_lt(a: Seq<char>, b: Seq<char>) -> bool
    decreases a.len(),
{
    if b.len() == 0 {
        false
    } else if a.len() == 0 {
        true
    } else if a[0] != b[0] {
        a[0] < b[0]
    } else {
        text_lt(a.drop_first(), b.drop_first())
    }
}

/// `text_lt` is irreflexive and asymmetric, and texts that it does not order are
/// the same.
pub proof fn lemma_text_lt_total(a: Seq<char>, b: Seq<char>)
    ensures
        !(text_lt(a, b) && text_lt(b, a)),
        !text_lt(a, b) && !text_lt(b, a) <==> a == b,
    decreases a.len(),
{
    if a.len() == 0 || b.len() == 0 {
        if a.len() == 0 && b.len() == 0 {
            assert(a =~= b);
        }
    } else {
        lemma_text_lt_total(a.drop_first(), b.drop_first());
        if a[0] == b[0] && a.drop_first() == b.drop_first() {
            assert(a =~= seq![a[0]] + a.drop_first());
            assert(b =~= seq![b[0]] + b.drop_first());
        }
    }
}

/// `text_lt` is transitive.
pub proof fn lemma_text_lt_trans(a: Seq<char>, b: Seq<char>, c: Seq<char>)
    requires
        text_lt(a, b),
        text_lt(b, c),
    ensures
        text_lt(a, c),
    decreases a.len(),
{
    if a.len() > 0 && a[0] == b[0] && b[0] == c[0] {
        lemma_text_lt_trans(a.drop_first(), b.drop_first(), c.drop_first());
    }
}

/// The words of `buf + s`, where `buf` is the word under way.
pub open spec fn words_from(s: Seq<char>, buf: Seq<char>) -> Seq<Seq<char>>
    decreases s.len(),
{
    if s.len() == 0 {
        flushed(buf)
    } else if is_space(s[0]) {
        flushed(buf) + words_from(s.drop_first(), Seq::empty())
    } else {
        words_from(s.drop_first(), buf.push(s[0]))
    }
}

/// The word `buf` on its own, or nothing when it is empty.
pub open spec fn flushed(buf: Seq<char>) -> Seq<Seq<char>> {
    if buf.len() == 0 {
        Seq::empty()
    } else {
        seq![buf]
    }
}

/// The words with single spaces between them.
pub open spec fn spaced(words: Seq<Seq<char>>) -> Seq<char>
    decreases words.len(),
{
    if words.len() == 0 {
        Seq::empty()
    } else if words.len() == 1 {
        words[0]
    } else {
        spaced(words.drop_last()).push(' ') + words.last()
    }
}

/// `s` with its whitespace runs made single spaces and its ends trimmed.
pub(crate) fn squeeze(s: &[char]) -> (r: Vec<char>)
    ensures
        r@ == spaced(words_from(s@, Seq::empty())),
{
    let mut out: Vec<char> = Vec::new();
    let mut buf: Vec<char> = Vec::new();
    let ghost mut done: Seq<Seq<char>> = Seq::empty();
    let mut i: usize = 0;
    assert(s@.skip(0) =~= s@);
    while i < s.len()
        invariant
            i <= s@.len(),
            out@ == spaced(done),
            done.len() == 0 <==> out@.len() == 0,
            words_from(s@, Seq::empty()) == done + words_from(s@.skip(i as int), buf@),
        decreases s@.len() - i,
    {
        assert(s@.skip(i as int).drop_first() =~= s@.skip(i + 1));
        let c = s[i];
        if is_whitespace(c) {
            if buf.len() > 0 {
                let ghost before = done;
                let ghost word = buf@;
                push_word(&mut out, &buf, Ghost(done));
                proof {
                    done = done.push(word);
                    assert(done =~= before + flushed(word));
                    assert(done + words_from(s@.skip(i + 1), Seq::empty()) =~= before + (flushed(
                        word,
                    ) + words_from(s@.skip(i + 1), Seq::empty())));
                }
                buf = Vec::new();
                assert(buf@ =~= Seq::empty());
            } else {
                assert(buf@ =~= Seq::empty());
                assert(flushed(buf@) + words_from(s@.skip(i + 1), Seq::empty()) =~= words_from(
                    s@.skip(i + 1),
                    Seq::empty(),
                ));
            }
        } else {
            buf.push(c);
        }
        i += 1;
    }
    if buf.len() > 0 {
        push_word(&mut out, &buf, Ghost(done));
        assert(done.push(buf@) =~= done + flushed(buf@));
    } else {
        assert(done + flushed(buf@) =~= done);
    }
    out
}

/// Append `word` to the spaced words in `out`.
fn push_word(out: &mut Vec<char>, word: &Vec<char>, Ghost(done): Ghost<Seq<Seq<char>>>)
    requires
        old(out)@ == spaced(done),
        done.len() == 0 <==> old(out)@.len() == 0,
        word@.len() > 0,
    ensures
        final(out)@ == spaced(done.push(word@)),
        final(out)@.len() > 0,
{
    if out.len() > 0 {
        out.push(' ');
    }
    assert(done.push(word@).drop_last() =~= done);
    append_chars(out, word.as_slice());
    assert(out@ =~= spaced(done.push(word@)));
}

/// Append `more` to `out`.
pub(crate) fn append_chars(out: &mut Vec<char>, more: &[char])
    ensures
        final(out)@ == old(out)@ + more@,
{
    let ghost start = out@;
    let mut i: usize = 0;
    assert(start + more@.take(0) =~= start);
    while i < more.len()
        invariant
            i <= more@.len(),
            out@ == start + more@.take(i as int),
        decreases more@.len() - i,
    {
        out.push(more[i]);
        assert(start + more@.take(i + 1) =~= (start + more@.take(i as int)).push(more@[i as int]));
        i += 1;
    }
    assert(more@.take(i as int) =~= more@);
}

/// The decimal digit `d`.
pub open spec fn digit(d: int) -> char {
    (('0' as u8 + d) as u8) as char
}

/// The decimal numeral of `n`.
pub open spec fn decimal(n: nat) -> Seq<char>
    decreases n,
{
    if n < 10 {
        seq![digit(n as int)]
    } else {
        decimal(n / 10).push(digit((n % 10) as int))
    }
}

/// Append the decimal numeral of `n`.
pub(crate) fn push_decimal(out: &mut String, n: u64)
    ensures
        final(out)@ == old(out)@ + decimal(n as nat),
    decreases n,
{
    let ghost start = out@;
    if n >= 10 {
        push_decimal(out, n / 10);
    }
    let d: u8 = (n % 10) as u8;
    out.push(('0' as u8 + d) as char);
    assert(out@ =~= start + decimal(n as nat));
}

/// The decimal numeral of `n`, with its sign when it is negative.
pub open spec fn signed_decimal(n: int) -> Seq<char> {
    if n < 0 {
        seq!['-'] + decimal((-n) as nat)
    } else {
        decimal(n as nat)
    }
}

/// Append the decimal numeral of `n`, with its sign when it is negative.
pub(crate) fn push_signed(out: &mut String, n: i32)
    ensures
        final(out)@ == old(out)@ + signed_decimal(n as int),
{
    let ghost start = out@;
    if n < 0 {
        out.push('-');
        push_decimal(out, (0 - n as i64) as u64);
    } else {
        push_decimal(out, n as u64);
    }
    assert(out@ =~= start + signed_decimal(n as int));
}

/// The text `s` between two others.
pub(crate) fn around(before: &str, s: &str, after: &str) -> (r: String)
    ensures
        r@ == before@ + s@ + after@,
{
    let mut out = String::new();
    out.append(before);
    out.append(s);
    out.append(after);
    assert(out@ =~= before@ + s@ + after@);
    out
}

/// The decimal numeral of `n` between two texts.
pub(crate) fn around_number(before: &str, n: u64, after: &str) -> (r: String)
    ensures
        r@ == before@ + decimal(n as nat) + after@,
{
    let mut out = String::new();
    out.append(before);
    push_decimal(&mut out, n);
    out.append(after);
    assert(out@ =~= before@ + decimal(n as nat) + after@);
    out
}

/// Whether `c` is an ASCII digit.
pub open spec fn is_digit(c: char) -> bool {
    '0' <= c <= '9'
}

/// Whether `s` is one ASCII digit or more.
pub open spec fn is_numeral(s: Seq<char>) -> bool {
    s.len() > 0 && all_digits(s)
}

/// Whether `s` holds ASCII digits only.
pub open spec fn all_digits(s: Seq<char>) -> bool {
    forall|i: int| 0 <= i < s.len() ==> is_digit(#[trigger] s[i])
}

/// The value of the digits `s`.
pub open spec fn digits_value(s: Seq<char>) -> nat
    decreases s.len(),
{
    if s.len() == 0 {
        0
    } else {
        digits_value(s.drop_last()) * 10 + (s.last() as u32 - '0' as u32) as nat
    }
}

/// The value of a numeral that is at most `limit`.
pub(crate) fn parse_digits(s: &[char], limit: u64) -> (r: Option<u64>)
    requires
        limit < 0x1_0000_0000_0000,
    ensures
        r is Some <==> is_numeral(s@) && digits_value(s@) <= limit,
        r matches Some(v) ==> v == digits_value(s@),
{
    if s.len() == 0 {
        return None;
    }
    let mut value: u64 = 0;
    let mut i: usize = 0;
    while i < s.len()
        invariant
            i <= s@.len(),
            limit < 0x1_0000_0000_0000,
            value <= limit + 1,
            value <= limit ==> value == digits_value(s@.take(i as int)),
            value > limit ==> digits_value(s@.take(i as int)) > limit,
            forall|j: int| 0 <= j < i ==> is_digit(#[trigger] s@[j]),
        decreases s@.len() - i,
    {
        let c = s[i];
        if !('0' <= c && c <= '9') {
            assert(!is_digit(s@[i as int]));
            return None;
        }
        assert(s@.take(i + 1).drop_last() =~= s@.take(i as int));
        if value <= limit {
            value = value * 10 + (c as u64 - '0' as u64);
            if value > limit {
                value = limit + 1;
            }
        }
        i += 1;
    }
    assert(s@.take(i as int) =~= s@);
    if value <= limit {
        Some(value)
    } else {
        None
    }
}

/// The value of `s` read as a `u32`: digits with an optional leading `+`.
pub open spec fn u32_value(s: Seq<char>) -> Option<int> {
    let digits = if s.len() > 0 && s[0] == '+' {
        s.drop_first()
    } else {
        s
    };
    if is_numeral(digits) && digits_value(digits) <= u32::MAX {
        Some(digits_value(digits) as int)
    } else {
        None
    }
}

/// Read `s` as a `u32`, as `str::parse` does.
pub(crate) fn parse_u32(s: &[char]) -> (r: Option<u32>)
    ensures
        r is Some <==> u32_value(s@) is Some,
        r matches Some(v) ==> v == u32_value(s@)->0,
{
    let from: usize = if s.len() > 0 && s[0] == '+' {
        1
    } else {
        0
    };
    let digits = copy_range(s, from, s.len());
    assert(s@.len() > 0 ==> s@.subrange(1, s@.len() as int) =~= s@.drop_first());
    assert(s@.subrange(0, s@.len() as int) =~= s@);
    match parse_digits(digits.as_slice(), 0xFFFF_FFFF) {
        Some(v) => Some(v as u32),
        None => None,
    }
}

/// The value of `s` read as an `i32`: digits with an optional leading sign.
pub open spec fn i32_value(s: Seq<char>) -> Option<int> {
    if s.len() > 0 && (s[0] == '+' || s[0] == '-') {
        let digits = s.drop_first();
        let v = if s[0] == '-' {
            -digits_value(digits)
        } else {
            digits_value(digits) as int
        };
        if is_numeral(digits) && i32::MIN <= v <= i32::MAX {
            Some(v)
        } else {
            None
        }
    } else if is_numeral(s) && digits_value(s) <= i32::MAX {
        Some(digits_value(s) as int)
    } else {
        None
    }
}

/// Read `s` as an `i32`, as `str::parse` does.
pub(crate) fn parse_i32(s: &[char]) -> (r: Option<i32>)
    ensures
        r is Some <==> i32_value(s@) is Some,
        r matches Some(v) ==> v == i32_value(s@)->0,
{
    let signed = s.len() > 0 && (s[0] == '+' || s[0] == '-');
    let negative = s.len() > 0 && s[0] == '-';
    let from: usize = if signed {
        1
    } else {
        0
    };
    let digits = copy_range(s, from, s.len());
    assert(s@.len() > 0 ==> s@.subrange(1, s@.len() as int) =~= s@.drop_first());
    assert(s@.subrange(0, s@.len() as int) =~= s@);
    let limit: u64 = if negative {
        0x8000_0000
    } else {
        0x7FFF_FFFF
    };
    match parse_digits(digits.as_slice(), limit) {
        Some(v) => {
            let wide: i64 = v as i64;
            if negative {
                Some((0 - wide) as i32)
            } else {
                Some(wide as i32)
            }
        },
        None => None,
    }
}

} // verus!
