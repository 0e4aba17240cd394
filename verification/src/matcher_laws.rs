//! Laws of the query language at the matcher: how the matchers of query texts that
//! are made of others relate to the matchers of those.

use crate::matcher;
use crate::matcher::Matcher;
use crate::query;
use crate::query::TokenView;
use crate::query_laws;
use crate::search;
use crate::search::{Facts, PredView, SearchOptions};
use crate::text;
use vstd::prelude::*;

verus! {

/// Whether a matcher is what a query in the plain syntax compiles to when each token
/// becomes the test that `test` names. Matchers for which one `test` serves were
/// compiled under the same local clock.
pub open spec fn compiled_by(
    m: Matcher,
    opts: SearchOptions,
    test: spec_fn(TokenView) -> Option<PredView>,
) -> bool {
    matcher::compiled_with(m, opts, query::tokens_of(opts.query@).map_values(test))
}

/// Whether two searches differ at most in their queries, as far as matching goes.
pub open spec fn same_but_query(a: SearchOptions, b: SearchOptions) -> bool {
    a.match_case == b.match_case && a.whole_word == b.whole_word && a.match_path == b.match_path
}

/// Whether a text is a single word of a query: no white space, no operator, no quote
/// and no leading `!`.
pub open spec fn single_word(w: Seq<char>) -> bool {
    &&& w.len() > 0
    &&& w[0] != '!'
    &&& in_word(w)
}

/// Whether no character of a text ends a word.
pub open spec fn in_word(w: Seq<char>) -> bool {
    forall|i: int|
        0 <= i < w.len() ==> (#[trigger] w[i]) != '"' && query::operator(w[i]) is None
            && !text::is_space(w[i])
}

/// The characters of a word go on the word under way.
proof fn lemma_in_word(w: Seq<char>, rest: Seq<char>, buf: Seq<char>)
    requires
        in_word(w),
        buf.len() > 0 || w.len() == 0 || w[0] != '!',
    ensures
        query::lexed(w + rest, buf) == query::lexed(rest, buf + w),
    decreases w.len(),
{
    if w.len() == 0 {
        assert(w + rest =~= rest);
        assert(buf + w =~= buf);
    } else {
        let tail = w.drop_first();
        assert((w + rest)[0] == w[0]);
        assert((w + rest).drop_first() =~= tail + rest);
        assert forall|i: int| 0 <= i < tail.len() implies (#[trigger] tail[i]) != '"'
            && query::operator(tail[i]) is None && !text::is_space(tail[i]) by {
            assert(tail[i] == w[i + 1]);
        }
        lemma_in_word(tail, rest, buf.push(w[0]));
        assert(buf.push(w[0]) + tail =~= buf + w);
    }
}

/// The tokens of a text that starts with a word.
pub(crate) proof fn lemma_word_first(w: Seq<char>, rest: Seq<char>)
    requires
        single_word(w),
    ensures
        query::tokens_of(w + rest) == query::lexed(rest, w),
        query::tokens_of(w) == seq![TokenView::Word(w)],
{
    let none = Seq::<char>::empty();
    lemma_in_word(w, rest, none);
    lemma_in_word(w, none, none);
    assert(none + w =~= w);
    assert(w + none =~= w);
}

/// What a space and a `|` before a text make of it.
pub(crate) proof fn lemma_before(s: Seq<char>, buf: Seq<char>)
    ensures
        query::lexed(seq![' '] + s, buf) == query::word_token(buf) + query::tokens_of(s),
        query::lexed(seq!['|'] + s, buf) == query::word_token(buf) + seq![TokenView::Or]
            + query::tokens_of(s),
{
    assert((seq![' '] + s).drop_first() =~= s);
    assert((seq!['|'] + s).drop_first() =~= s);
    assert(query::word_token(buf).push(TokenView::Or) =~= query::word_token(buf) + seq![
        TokenView::Or,
    ]);
}

/// An empty alternative in front of a query is discarded: it does not match
/// everything, and the query means what it means alone.
pub proof fn law_empty_branch(
    m: Matcher,
    n: Matcher,
    opts: SearchOptions,
    with_branch: SearchOptions,
    test: spec_fn(TokenView) -> Option<PredView>,
)
    requires
        same_but_query(opts, with_branch),
        with_branch.query@ == seq!['|', ' '] + opts.query@,
        compiled_by(m, opts, test),
        compiled_by(n, with_branch, test),
    ensures
        forall|e: Facts| #[trigger] n.accepts(e) == m.accepts(e),
        n.clauses@.len() == 0 <==> m.clauses@.len() == 0,
        n.needs_path == m.needs_path,
{
    let none = Seq::<char>::empty();
    let q = opts.query@;
    let tokens = query::tokens_of(q);
    let preds = tokens.map_values(test);
    let or = seq![TokenView::Or];
    assert(with_branch.query@ =~= seq!['|'] + (seq![' '] + q));
    lemma_before(seq![' '] + q, none);
    lemma_before(q, none);
    let longer = query::tokens_of(with_branch.query@);
    assert(longer =~= or + tokens);
    let wider = longer.map_values(test);
    assert(wider =~= seq![test(TokenView::Or)] + preds);
    assert(search::token_yields(longer[0], with_branch, wider[0]));
    assert forall|e: Facts| #[trigger] n.accepts(e) == m.accepts(e) by {
        let t = matcher::truths(preds, opts.match_case, e);
        let u = matcher::truths(wider, opts.match_case, e);
        let a = Seq::<TokenView>::empty();
        let va = Seq::<Option<bool>>::empty();
        assert(u =~= va + seq![u[0]] + t);
        assert(longer =~= a + or + tokens);
        assert(query_laws::depth(a) == 0);
        assert forall|i: int| 0 <= i <= a.len() implies query_laws::depth(#[trigger] a.take(i))
            >= 0 by {
            assert(a.take(i) =~= a);
        }
        query_laws::law_or(a, va, u[0], tokens, t);
        query_laws::law_unconstrained(a, va);
    }
    assert forall|i: int| 0 <= i < preds.len() implies preds[i] == wider[i + 1] by {}
    if forall|i: int| 0 <= i < preds.len() ==> preds[i] is None {
        assert forall|i: int| 0 <= i < wider.len() implies wider[i] is None by {
            if i > 0 {
                assert(preds[i - 1] == wider[i]);
            }
        }
    }
    if n.needs_path {
        let i = choose|i: int|
            0 <= i < longer.len() && search::token_needs_path(#[trigger] longer[i], with_branch);
        assert(tokens[i - 1] == longer[i]);
    }
    if m.needs_path {
        let i = choose|i: int|
            0 <= i < tokens.len() && search::token_needs_path(#[trigger] tokens[i], opts);
        assert(longer[i + 1] == tokens[i]);
    }
}

/// What the matcher of a single word accepts: what the word's test holds of, and
/// everything when it became none.
pub(crate) proof fn lemma_word_matcher(
    m: Matcher,
    opts: SearchOptions,
    test: spec_fn(TokenView) -> Option<PredView>,
    e: Facts,
)
    requires
        single_word(opts.query@),
        compiled_by(m, opts, test),
    ensures
        ({
            let v = matcher::truth(test(TokenView::Word(opts.query@)), opts.match_case, e);
            &&& query::query_value(seq![TokenView::Word(opts.query@)], seq![v]) == v
            &&& m.accepts(e) == (v != Some(false))
            &&& m.clauses@.len() == 0 <==> v is None
        }),
{
    let w = opts.query@;
    lemma_word_first(w, Seq::empty());
    let tokens = query::tokens_of(w);
    let preds = tokens.map_values(test);
    let v = matcher::truth(test(TokenView::Word(w)), opts.match_case, e);
    assert(preds =~= seq![test(TokenView::Word(w))]);
    assert(matcher::truths(preds, opts.match_case, e) =~= seq![v]);
    lemma_one_word(w, v);
    assert(m.accepts(e) == query::accepted(tokens, matcher::truths(preds, opts.match_case, e)));
    assert(preds[0] == test(TokenView::Word(w)));
}

/// A query of one word is as true as the word.
pub(crate) proof fn lemma_one_word(w: Seq<char>, v: Option<bool>)
    ensures
        query::query_value(seq![TokenView::Word(w)], seq![v]) == v,
{
    let one = seq![TokenView::Word(w)];
    let start = seq![query::Frame::fresh()];
    reveal_with_fuel(query::run, 2);
    assert(one.drop_last() =~= Seq::empty());
    assert(query::run(start, one, seq![v]) =~= seq![query::Frame::fresh().with_term(v)]);
}

/// A single word is balanced and has one alternative.
proof fn lemma_word_shape(w: Seq<char>)
    ensures
        query_laws::balanced(seq![TokenView::Word(w)]),
        query_laws::single_alternative(seq![TokenView::Word(w)]),
{
    let one = seq![TokenView::Word(w)];
    let none = Seq::<TokenView>::empty();
    assert(one.drop_last() =~= none);
    assert(query_laws::depth(none) == 0);
    assert(query_laws::depth(one) == 0);
    assert forall|i: int| 0 <= i <= one.len() implies query_laws::depth(#[trigger] one.take(i))
        >= 0 by {
        if i == 0 {
            assert(one.take(i) =~= none);
        } else {
            assert(one.take(i) =~= one);
        }
    }
}

/// Two words with a space between them accept what both of them accept.
pub proof fn law_two_words(
    first: Matcher,
    second: Matcher,
    both: Matcher,
    a: SearchOptions,
    b: SearchOptions,
    ab: SearchOptions,
    test: spec_fn(TokenView) -> Option<PredView>,
)
    requires
        single_word(a.query@),
        single_word(b.query@),
        ab.query@ == a.query@ + seq![' '] + b.query@,
        same_but_query(a, b) && same_but_query(a, ab),
        compiled_by(first, a, test),
        compiled_by(second, b, test),
        compiled_by(both, ab, test),
    ensures
        forall|e: Facts| #[trigger]
            both.accepts(e) == (first.accepts(e) && second.accepts(e)),
{
    let (x, y) = (a.query@, b.query@);
    assert(ab.query@ =~= x + (seq![' '] + y));
    lemma_word_first(x, seq![' '] + y);
    lemma_word_first(y, Seq::empty());
    lemma_before(y, x);
    let tokens = query::tokens_of(ab.query@);
    let (wx, wy) = (seq![TokenView::Word(x)], seq![TokenView::Word(y)]);
    assert(tokens =~= wx + wy);
    let preds = tokens.map_values(test);
    assert forall|e: Facts| #[trigger]
        both.accepts(e) == (first.accepts(e) && second.accepts(e)) by {
        lemma_word_matcher(first, a, test, e);
        lemma_word_matcher(second, b, test, e);
        let u = matcher::truth(test(TokenView::Word(x)), ab.match_case, e);
        let v = matcher::truth(test(TokenView::Word(y)), ab.match_case, e);
        assert(matcher::truths(preds, ab.match_case, e) =~= seq![u] + seq![v]);
        lemma_word_shape(x);
        lemma_word_shape(y);
        query_laws::law_and(wx, seq![u], wy, seq![v]);
    }
}

/// Two words with a `|` between them, each of which constrains, accept what either of
/// them accepts.
pub proof fn law_either_word(
    first: Matcher,
    second: Matcher,
    either: Matcher,
    a: SearchOptions,
    b: SearchOptions,
    ab: SearchOptions,
    test: spec_fn(TokenView) -> Option<PredView>,
)
    requires
        single_word(a.query@),
        single_word(b.query@),
        ab.query@ == a.query@ + seq![' ', '|', ' '] + b.query@,
        same_but_query(a, b) && same_but_query(a, ab),
        compiled_by(first, a, test),
        compiled_by(second, b, test),
        compiled_by(either, ab, test),
        first.clauses@.len() > 0,
        second.clauses@.len() > 0,
    ensures
        forall|e: Facts| #[trigger]
            either.accepts(e) == (first.accepts(e) || second.accepts(e)),
{
    let (x, y) = (a.query@, b.query@);
    let none = Seq::<char>::empty();
    let space = seq![' '];
    let bar = seq!['|'];
    assert(ab.query@ =~= x + (space + (bar + (space + y))));
    lemma_word_first(x, space + (bar + (space + y)));
    lemma_word_first(y, none);
    lemma_before(bar + (space + y), x);
    lemma_before(space + y, none);
    lemma_before(y, none);
    let tokens = query::tokens_of(ab.query@);
    let (wx, wy) = (seq![TokenView::Word(x)], seq![TokenView::Word(y)]);
    assert(tokens =~= wx + seq![TokenView::Or] + wy);
    let preds = tokens.map_values(test);
    assert forall|e: Facts| #[trigger]
        either.accepts(e) == (first.accepts(e) || second.accepts(e)) by {
        lemma_word_matcher(first, a, test, e);
        lemma_word_matcher(second, b, test, e);
        let u = matcher::truth(test(TokenView::Word(x)), ab.match_case, e);
        let o = matcher::truth(test(TokenView::Or), ab.match_case, e);
        let v = matcher::truth(test(TokenView::Word(y)), ab.match_case, e);
        assert(matcher::truths(preds, ab.match_case, e) =~= seq![u] + seq![o] + seq![v]);
        lemma_word_shape(x);
        query_laws::law_or(wx, seq![u], o, wy, seq![v]);
    }
}

/// A `!` before a word that constrains accepts what the word does not, and two of them
/// cancel out.
pub proof fn law_not_word(
    plain: Matcher,
    negated: Matcher,
    twice: Matcher,
    a: SearchOptions,
    not_a: SearchOptions,
    not_not_a: SearchOptions,
    test: spec_fn(TokenView) -> Option<PredView>,
)
    requires
        single_word(a.query@),
        not_a.query@ == seq!['!'] + a.query@,
        not_not_a.query@ == seq!['!', '!'] + a.query@,
        same_but_query(a, not_a) && same_but_query(a, not_not_a),
        compiled_by(plain, a, test),
        compiled_by(negated, not_a, test),
        compiled_by(twice, not_not_a, test),
    ensures
        plain.clauses@.len() > 0 ==> forall|e: Facts| #[trigger]
            negated.accepts(e) == !plain.accepts(e),
        forall|e: Facts| #[trigger] twice.accepts(e) == plain.accepts(e),
{
    let x = a.query@;
    let none = Seq::<char>::empty();
    let w = TokenView::Word(x);
    lemma_word_first(x, none);
    assert(not_a.query@.drop_first() =~= x);
    assert(not_not_a.query@.drop_first() =~= not_a.query@);
    let one = query::tokens_of(not_a.query@);
    let two = query::tokens_of(not_not_a.query@);
    assert(one =~= seq![TokenView::Not, w]);
    assert(two =~= seq![TokenView::Not, TokenView::Not] + seq![w]);
    let n = test(TokenView::Not);
    assert forall|e: Facts| plain.clauses@.len() > 0 implies #[trigger] negated.accepts(e)
        == !plain.accepts(e) by {
        lemma_word_matcher(plain, a, test, e);
        let v = matcher::truth(test(w), a.match_case, e);
        let o = matcher::truth(n, a.match_case, e);
        assert(matcher::truths(one.map_values(test), a.match_case, e) =~= seq![o, v]);
        query_laws::law_not(w, o, v, seq![w], seq![v]);
    }
    assert forall|e: Facts| #[trigger] twice.accepts(e) == plain.accepts(e) by {
        lemma_word_matcher(plain, a, test, e);
        let v = matcher::truth(test(w), a.match_case, e);
        let o = matcher::truth(n, a.match_case, e);
        assert(matcher::truths(two.map_values(test), a.match_case, e) =~= seq![o, o] + seq![v]);
        query_laws::law_not(w, o, v, seq![w], seq![v]);
    }
}

/// Whether a text is a word by its characters: none is white space, a quote, a bar or a
/// parenthesis, and the first is no `!`.
pub open spec fn is_word(w: Seq<char>) -> bool {
    &&& w.len() > 0 && w[0] != '!'
    &&& forall|i: int|
        0 <= i < w.len() ==> (#[trigger] w[i]) != '"' && w[i] != '|' && w[i] != '(' && w[i] != ')'
            && !text::is_space(w[i])
}

/// What ends a word: a bar, either parenthesis and a space, where the first three are
/// operators of their own. A `!` is one only where no word is under way, so that it may
/// stand inside a word.
#[verifier::rlimit(40)]
pub proof fn law_tokens(w: Seq<char>, rest: Seq<char>)
    requires
        is_word(w),
    ensures
        query::tokens_of(w) == seq![TokenView::Word(w)],
        query::tokens_of(w + seq!['|'] + rest) == seq![TokenView::Word(w), TokenView::Or]
            + query::tokens_of(rest),
        query::tokens_of(w + seq!['('] + rest) == seq![TokenView::Word(w), TokenView::Open]
            + query::tokens_of(rest),
        query::tokens_of(w + seq![')'] + rest) == seq![TokenView::Word(w), TokenView::Close]
            + query::tokens_of(rest),
        query::tokens_of(w + seq![' '] + rest) == seq![TokenView::Word(w)] + query::tokens_of(rest),
        query::tokens_of(seq!['('] + rest) == seq![TokenView::Open] + query::tokens_of(rest),
        query::tokens_of(seq![')'] + rest) == seq![TokenView::Close] + query::tokens_of(rest),
        query::tokens_of(seq!['|'] + rest) == seq![TokenView::Or] + query::tokens_of(rest),
        query::tokens_of(seq!['!'] + rest) == seq![TokenView::Not] + query::tokens_of(rest),
        query::tokens_of(seq![' '] + rest) == query::tokens_of(rest),
        query::tokens_of(w + seq!['!'] + w) == seq![TokenView::Word(w + seq!['!'] + w)],
{
    let none = Seq::<char>::empty();
    assert(single_word(w)) by {
        assert forall|i: int| 0 <= i < w.len() implies (#[trigger] w[i]) != '"' && query::operator(
            w[i],
        ) is None && !text::is_space(w[i]) by {}
    }
    lemma_word_first(w, none);
    lemma_ends_word(w, '|', TokenView::Or, rest);
    lemma_ends_word(w, '(', TokenView::Open, rest);
    lemma_ends_word(w, ')', TokenView::Close, rest);
    lemma_word_first(w, seq![' '] + rest);
    lemma_before(rest, w);
    assert(w + seq![' '] + rest =~= w + (seq![' '] + rest));
    lemma_before(rest, none);
    assert(query::word_token(none) + query::tokens_of(rest) =~= query::tokens_of(rest));
    assert((seq!['!'] + rest).drop_first() =~= rest);
    let x = w + seq!['!'] + w;
    assert(single_word(x)) by {
        assert forall|i: int| 0 <= i < x.len() implies (#[trigger] x[i]) != '"' && query::operator(
            x[i],
        ) is None && !text::is_space(x[i]) by {
            if i < w.len() {
                assert(x[i] == w[i]);
            } else if i > w.len() {
                assert(x[i] == w[i - w.len() - 1]);
            }
        }
    }
    lemma_word_first(x, none);
}

/// What an operator makes of a word before it and of a text behind it.
proof fn lemma_ends_word(w: Seq<char>, c: char, t: TokenView, rest: Seq<char>)
    requires
        single_word(w),
        query::operator(c) == Some(t),
        c != '"',
    ensures
        query::tokens_of(w + seq![c] + rest) == seq![TokenView::Word(w), t] + query::tokens_of(rest),
        query::tokens_of(seq![c] + rest) == seq![t] + query::tokens_of(rest),
{
    let none = Seq::<char>::empty();
    let s = seq![c] + rest;
    lemma_word_first(w, s);
    assert(w + seq![c] + rest =~= w + s);
    assert(s.drop_first() =~= rest);
    assert(query::word_token(w).push(t) =~= seq![TokenView::Word(w), t]);
    assert(query::word_token(none).push(t) =~= seq![t]);
}

} // verus!
