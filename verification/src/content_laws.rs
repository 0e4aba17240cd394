//! Laws of `content:` in queries without quotes: it works on whole words.

use crate::content;
use crate::text;
use vstd::prelude::*;

verus! {

/// The words that are no `content:` terms.
pub open spec fn kept_words(words: Seq<Seq<char>>) -> Seq<Seq<char>>
    decreases words.len(),
{
    if words.len() == 0 {
        Seq::empty()
    } else if content::starts_content(words[0]) {
        kept_words(words.drop_first())
    } else {
        seq![words[0]] + kept_words(words.drop_first())
    }
}

/// What follows the `content:` of each word that has one, unless that is empty.
pub open spec fn term_words(words: Seq<Seq<char>>) -> Seq<Seq<char>>
    decreases words.len(),
{
    if words.len() == 0 {
        Seq::empty()
    } else if content::starts_content(words[0]) {
        text::flushed(words[0].skip(8)) + term_words(words.drop_first())
    } else {
        term_words(words.drop_first())
    }
}

/// Whether a text is one word: not empty, and without white space.
spec fn is_word(w: Seq<char>) -> bool {
    w.len() > 0 && forall|i: int| 0 <= i < w.len() ==> !text::is_space(#[trigger] w[i])
}

/// Whether a text has no quote.
pub open spec fn unquoted(s: Seq<char>) -> bool {
    forall|i: int| 0 <= i < s.len() ==> #[trigger] s[i] != '"'
}

/// The first word of a text ends where its first white space stands.
proof fn lemma_first_word(s: Seq<char>)
    ensures
        content::until_space(s) <= s.len(),
        forall|i: int| 0 <= i < content::until_space(s) ==> !text::is_space(#[trigger] s[i]),
        content::until_space(s) < s.len() ==> text::is_space(s[content::until_space(s) as int]),
    decreases s.len(),
{
    if s.len() > 0 && !text::is_space(s[0]) {
        let tail = s.drop_first();
        lemma_first_word(tail);
        assert forall|i: int| 0 <= i < content::until_space(s) implies !text::is_space(
            #[trigger] s[i],
        ) by {
            if i > 0 {
                assert(tail[i - 1] == s[i]);
            }
        }
    }
}

/// The text up to a white space is the rest of the word under way.
proof fn lemma_words_on(w: Seq<char>, rest: Seq<char>, buf: Seq<char>)
    requires
        forall|i: int| 0 <= i < w.len() ==> !text::is_space(#[trigger] w[i]),
    ensures
        text::words_from(w + rest, buf) == text::words_from(rest, buf + w),
    decreases w.len(),
{
    if w.len() == 0 {
        assert(w + rest =~= rest);
        assert(buf + w =~= buf);
    } else {
        let tail = w.drop_first();
        assert((w + rest)[0] == w[0]);
        assert((w + rest).drop_first() =~= tail + rest);
        assert forall|i: int| 0 <= i < tail.len() implies !text::is_space(#[trigger] tail[i]) by {
            assert(tail[i] == w[i + 1]);
        }
        lemma_words_on(tail, rest, buf.push(w[0]));
        assert(buf.push(w[0]) + tail =~= buf + w);
    }
}

/// Inside a word nothing is a function.
proof fn lemma_split_on(w: Seq<char>, rest: Seq<char>)
    requires
        forall|i: int| 0 <= i < w.len() ==> !text::is_space(#[trigger] w[i]),
    ensures
        content::split_content(w + rest, false) == (
            w + content::split_content(rest, false).0,
            content::split_content(rest, false).1,
        ),
    decreases w.len(),
{
    let after = content::split_content(rest, false);
    if w.len() == 0 {
        assert(w + rest =~= rest);
        assert(w + after.0 =~= after.0);
    } else {
        let tail = w.drop_first();
        assert((w + rest)[0] == w[0]);
        assert((w + rest).drop_first() =~= tail + rest);
        assert forall|i: int| 0 <= i < tail.len() implies !text::is_space(#[trigger] tail[i]) by {
            assert(tail[i] == w[i + 1]);
        }
        lemma_split_on(tail, rest);
        assert(seq![w[0]] + (tail + after.0) =~= w + after.0);
    }
}

/// `content:` has no white space, so it stands at the start of a text exactly when it
/// stands at the start of the first word.
proof fn lemma_starts(s: Seq<char>)
    ensures
        content::starts_content(s) ==> content::until_space(s) >= 8,
        content::starts_content(s) == content::starts_content(
            s.take(content::until_space(s) as int),
        ),
{
    let n = content::until_space(s) as int;
    lemma_first_word(s);
    reveal_strlit("content:");
    let w = s.take(n);
    if content::starts_content(s) {
        if n < 8 {
            let a = text::ascii_lowered(s.take(8));
            let b = text::ascii_lowered("content:"@);
            assert(a[n] == b[n]);
            assert(a[n] == text::ascii_lower(s[n]));
            assert(b[n] == text::ascii_lower("content:"@[n]));
        }
        assert(w.take(8) =~= s.take(8));
    }
    if content::starts_content(w) {
        assert(w.take(8) =~= s.take(8));
    }
}

/// On a query without quotes the `content:` terms are whole words.
proof fn lemma_split(s: Seq<char>)
    requires
        unquoted(s),
    ensures
        text::words_from(content::split_content(s, true).0, Seq::empty()) == kept_words(
            text::words_from(s, Seq::empty()),
        ),
        content::split_content(s, true).1 == term_words(text::words_from(s, Seq::empty())),
    decreases s.len(),
{
    let none = Seq::<char>::empty();
    let words = text::words_from(s, none);
    let split = content::split_content(s, true);
    if s.len() == 0 {
    } else {
        let n = content::until_space(s) as int;
        lemma_first_word(s);
        lemma_starts(s);
        let w = s.take(n);
        let rest = s.skip(n);
        let end = content::split_content(rest, false);
        assert(s =~= w + rest);
        lemma_words_on(w, rest, none);
        assert(none + w =~= w);
        if n == 0 {
            lemma_tail(s, none);
            let tail = s.drop_first();
            assert((seq![s[0]] + content::split_content(tail, true).0).drop_first()
                =~= content::split_content(tail, true).0);
            assert(text::flushed(none) + text::words_from(tail, none) =~= text::words_from(
                tail,
                none,
            ));
            assert(text::flushed(none) + text::words_from(
                content::split_content(tail, true).0,
                none,
            ) =~= text::words_from(content::split_content(tail, true).0, none));
            lemma_split(tail);
        } else {
            if rest.len() > 0 {
                assert(rest[0] == s[n]);
            }
            lemma_rest(rest, w);
            assert(words == seq![w] + rest_words(rest));
            assert(words.drop_first() =~= rest_words(rest));
            if content::starts_content(s) {
                let body = s.skip(8);
                assert(body.len() > 0 ==> body[0] == s[8]);
                lemma_after_head(s, 8);
                assert(content::content_term(body) =~= w.skip(8));
                assert(content::after_term(body) =~= rest);
                lemma_rest(rest, none);
                assert(split == (end.0, text::flushed(w.skip(8)) + end.1));
            } else {
                let tail = w.drop_first();
                assert(s.drop_first() =~= tail + rest);
                assert forall|i: int| 0 <= i < tail.len() implies !text::is_space(
                    #[trigger] tail[i],
                ) by {
                    assert(tail[i] == s[i + 1]);
                }
                lemma_split_on(tail, rest);
                assert(seq![s[0]] + (tail + end.0) =~= w + end.0);
                lemma_words_on(w, end.0, none);
            }
        }
    }
}

/// The words after a word.
spec fn rest_words(rest: Seq<char>) -> Seq<Seq<char>> {
    if rest.len() == 0 {
        Seq::empty()
    } else {
        text::words_from(rest.drop_first(), Seq::empty())
    }
}

/// What stands before the first white space of a text without its first characters.
proof fn lemma_after_head(s: Seq<char>, k: int)
    requires
        0 <= k <= content::until_space(s),
    ensures
        content::until_space(s.skip(k)) == content::until_space(s) - k,
    decreases k,
{
    lemma_first_word(s);
    if k == 0 {
        assert(s.skip(0) =~= s);
    } else {
        assert(s.skip(k) =~= s.drop_first().skip(k - 1));
        lemma_after_head(s.drop_first(), k - 1);
    }
}

/// White space at the start of a text ends the word before it.
proof fn lemma_tail(s: Seq<char>, buf: Seq<char>)
    requires
        s.len() > 0,
        text::is_space(s[0]),
        unquoted(s),
    ensures
        text::words_from(s, buf) == text::flushed(buf) + text::words_from(
            s.drop_first(),
            Seq::empty(),
        ),
        content::split_content(s, true) == content::split_content(s, false),
        unquoted(s.drop_first()),
{
    lemma_starts(s);
    assert forall|i: int| 0 <= i < s.drop_first().len() implies #[trigger] s.drop_first()[i]
        != '"' by {
        assert(s.drop_first()[i] == s[i + 1]);
    }
}

/// What follows a word, where the word under way is `buf`.
proof fn lemma_rest(rest: Seq<char>, buf: Seq<char>)
    requires
        unquoted(rest),
        rest.len() > 0 ==> text::is_space(rest[0]),
    ensures
        text::words_from(rest, buf) == text::flushed(buf) + rest_words(rest),
        text::words_from(content::split_content(rest, false).0, buf) == text::flushed(buf)
            + kept_words(rest_words(rest)),
        content::split_content(rest, false).1 == term_words(rest_words(rest)),
    decreases rest.len(),
{
    if rest.len() == 0 {
        assert(text::flushed(buf) + Seq::<Seq<char>>::empty() =~= text::flushed(buf));
    } else {
        lemma_tail(rest, buf);
        let tail = rest.drop_first();
        lemma_split(tail);
        let after = content::split_content(tail, true).0;
        assert((seq![rest[0]] + after).drop_first() =~= after);
    }
}

/// On a query without quotes `content:` works on whole words: the words that do not
/// start with it stay, in order, and the others give their rests as terms, in order and
/// with their case, unless these are empty. So a second run finds nothing more.
pub proof fn law_content_words(q: Seq<char>)
    requires
        unquoted(q),
    ensures
        content::content_rest(q) == text::spaced(
            kept_words(text::words_from(q, Seq::empty())),
        ),
        content::content_terms(q) == term_words(text::words_from(q, Seq::empty())),
        content::content_rest(content::content_rest(q)) == content::content_rest(q),
        content::content_terms(content::content_rest(q)) == Seq::<Seq<char>>::empty(),
{
    let none = Seq::<char>::empty();
    lemma_split(q);
    let words = text::words_from(q, none);
    let kept = kept_words(words);
    let rest = text::spaced(kept);
    lemma_words_plain(q, none);
    lemma_kept_plain(words);
    lemma_spaced(kept);
    lemma_split(rest);
    lemma_kept_again(kept);
}

/// Whether all the texts are words without quotes.
spec fn all_plain(words: Seq<Seq<char>>) -> bool {
    forall|i: int| 0 <= i < words.len() ==> is_word(#[trigger] words[i]) && unquoted(words[i])
}

/// The words of a text without quotes are words without quotes.
proof fn lemma_words_plain(s: Seq<char>, buf: Seq<char>)
    requires
        unquoted(s),
        unquoted(buf),
        buf.len() > 0 ==> is_word(buf),
    ensures
        all_plain(text::words_from(s, buf)),
    decreases s.len(),
{
    if s.len() > 0 {
        let tail = s.drop_first();
        assert forall|i: int| 0 <= i < tail.len() implies #[trigger] tail[i] != '"' by {
            assert(tail[i] == s[i + 1]);
        }
        if text::is_space(s[0]) {
            lemma_words_plain(tail, Seq::empty());
            let rest = text::words_from(tail, Seq::empty());
            let all = text::flushed(buf) + rest;
            assert forall|i: int| 0 <= i < all.len() implies is_word(#[trigger] all[i])
                && unquoted(all[i]) by {
                if i >= text::flushed(buf).len() {
                    assert(all[i] == rest[i - text::flushed(buf).len()]);
                }
            }
        } else {
            assert(s[0] != '"');
            lemma_words_plain(tail, buf.push(s[0]));
        }
    }
}

/// The words that stay are some of the words, and none is a `content:` term.
proof fn lemma_kept_plain(words: Seq<Seq<char>>)
    requires
        all_plain(words),
    ensures
        all_plain(kept_words(words)),
        forall|i: int|
            0 <= i < kept_words(words).len() ==> !content::starts_content(
                #[trigger] kept_words(words)[i],
            ),
    decreases words.len(),
{
    if words.len() > 0 {
        let tail = words.drop_first();
        assert forall|i: int| 0 <= i < tail.len() implies is_word(#[trigger] tail[i]) && unquoted(
            tail[i],
        ) by {
            assert(tail[i] == words[i + 1]);
        }
        lemma_kept_plain(tail);
        if !content::starts_content(words[0]) {
            let rest = kept_words(tail);
            let all = seq![words[0]] + rest;
            assert forall|i: int| 0 <= i < all.len() implies is_word(#[trigger] all[i])
                && unquoted(all[i]) && !content::starts_content(all[i]) by {
                if i > 0 {
                    assert(all[i] == rest[i - 1]);
                }
            }
        }
    }
}

/// Words of which none is a `content:` term all stay.
proof fn lemma_kept_again(words: Seq<Seq<char>>)
    requires
        forall|i: int|
            0 <= i < words.len() ==> !content::starts_content(#[trigger] words[i]),
    ensures
        kept_words(words) == words,
        term_words(words) == Seq::<Seq<char>>::empty(),
    decreases words.len(),
{
    if words.len() > 0 {
        let tail = words.drop_first();
        assert forall|i: int| 0 <= i < tail.len() implies !content::starts_content(
            #[trigger] tail[i],
        ) by {
            assert(tail[i] == words[i + 1]);
        }
        lemma_kept_again(tail);
        assert(seq![words[0]] + tail =~= words);
    } else {
        assert(words =~= Seq::empty());
    }
}

/// A space between two texts parts their words.
proof fn lemma_parted(x: Seq<char>, y: Seq<char>, buf: Seq<char>)
    ensures
        text::words_from(x.push(' ') + y, buf) == text::words_from(x, buf) + text::words_from(
            y,
            Seq::empty(),
        ),
    decreases x.len(),
{
    let none = Seq::<char>::empty();
    let s = x.push(' ') + y;
    if x.len() == 0 {
        assert(s[0] == ' ');
        assert(s.drop_first() =~= y);
    } else {
        let tail = x.drop_first();
        assert(s[0] == x[0]);
        assert(s.drop_first() =~= tail.push(' ') + y);
        if text::is_space(x[0]) {
            lemma_parted(tail, y, none);
            assert(text::flushed(buf) + (text::words_from(tail, none) + text::words_from(y, none))
                =~= text::flushed(buf) + text::words_from(tail, none) + text::words_from(y, none));
        } else {
            lemma_parted(tail, y, buf.push(x[0]));
        }
    }
}

/// The words of spaced words are those words.
proof fn lemma_spaced(words: Seq<Seq<char>>)
    requires
        all_plain(words),
    ensures
        text::words_from(text::spaced(words), Seq::empty()) == words,
        unquoted(text::spaced(words)),
    decreases words.len(),
{
    let none = Seq::<char>::empty();
    if words.len() == 0 {
        assert(words =~= Seq::empty());
    } else {
        let last = words.last();
        assert(is_word(words[words.len() - 1]));
        lemma_words_on(last, none, none);
        assert(last + none =~= last);
        assert(none + last =~= last);
        assert(text::words_from(last, none) == seq![last]);
        if words.len() == 1 {
            assert(words =~= seq![last]);
        } else {
            let front = words.drop_last();
            assert forall|i: int| 0 <= i < front.len() implies is_word(#[trigger] front[i])
                && unquoted(front[i]) by {
                assert(front[i] == words[i]);
            }
            lemma_spaced(front);
            lemma_parted(text::spaced(front), last, none);
            assert(front + seq![last] =~= words);
            let all = text::spaced(words);
            let k = text::spaced(front).len();
            assert forall|i: int| 0 <= i < all.len() implies #[trigger] all[i] != '"' by {
                if i < k {
                    assert(all[i] == text::spaced(front)[i]);
                } else if i > k {
                    assert(all[i] == last[i - k - 1]);
                }
            }
        }
    }
}

} // verus!
