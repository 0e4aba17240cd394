//! Laws of the query language: what the operators `|`, `!` and `( )` and plain
//! juxtaposition mean for the query as a whole.

use crate::query;
use crate::query::{Frame, TokenView};
use vstd::prelude::*;

verus! {

/// How many groups the tokens open and do not close.
pub open spec fn depth(tokens: Seq<TokenView>) -> int
    decreases tokens.len(),
{
    if tokens.len() == 0 {
        0
    } else {
        depth(tokens.drop_last()) + match tokens.last() {
            TokenView::Open => 1int,
            TokenView::Close => -1int,
            _ => 0int,
        }
    }
}

/// Whether every `)` of the tokens closes a group that they opened.
pub open spec fn nested(tokens: Seq<TokenView>) -> bool {
    forall|i: int| 0 <= i <= tokens.len() ==> depth(#[trigger] tokens.take(i)) >= 0
}

/// Whether the parentheses of the tokens match.
pub open spec fn balanced(tokens: Seq<TokenView>) -> bool {
    nested(tokens) && depth(tokens) == 0
}

/// Whether no `|` of the tokens stands outside every group.
pub open spec fn single_alternative(tokens: Seq<TokenView>) -> bool {
    forall|i: int|
        0 <= i < tokens.len() && #[trigger] tokens[i] == TokenView::Or ==> depth(tokens.take(i)) > 0
}

proof fn lemma_prefix(tokens: Seq<TokenView>)
    requires
        tokens.len() > 0,
    ensures
        nested(tokens) ==> nested(tokens.drop_last()) && depth(tokens) >= 0 && depth(
            tokens.drop_last(),
        ) >= 0,
        nested(tokens) && single_alternative(tokens) ==> single_alternative(tokens.drop_last()),
        tokens.drop_last() == tokens.take(tokens.len() - 1),
{
    let front = tokens.drop_last();
    assert(front =~= tokens.take(tokens.len() - 1));
    assert(tokens.take(tokens.len() as int) =~= tokens);
    if nested(tokens) {
        assert(depth(tokens.take(tokens.len() as int)) >= 0);
        assert forall|i: int| 0 <= i <= front.len() implies depth(#[trigger] front.take(i)) >= 0 by {
            assert(front.take(i) =~= tokens.take(i));
        }
        assert(depth(front.take(front.len() as int)) >= 0);
        assert(front.take(front.len() as int) =~= front);
        if single_alternative(tokens) {
            assert forall|i: int|
                0 <= i < front.len() && #[trigger] front[i] == TokenView::Or implies depth(
                front.take(i),
            ) > 0 by {
                assert(front.take(i) =~= tokens.take(i));
                assert(tokens[i] == TokenView::Or);
            }
        }
    }
}

proof fn lemma_run_nonempty(
    stack: Seq<Frame>,
    tokens: Seq<TokenView>,
    truths: Seq<Option<bool>>,
)
    requires
        stack.len() > 0,
    ensures
        query::run(stack, tokens, truths).len() > 0,
    decreases tokens.len(),
{
    if tokens.len() > 0 {
        lemma_run_nonempty(stack, tokens.drop_last(), truths);
    }
}

proof fn lemma_run_append(
    stack: Seq<Frame>,
    a: Seq<TokenView>,
    va: Seq<Option<bool>>,
    b: Seq<TokenView>,
    vb: Seq<Option<bool>>,
)
    requires
        a.len() == va.len(),
        b.len() == vb.len(),
    ensures
        query::run(stack, a + b, va + vb) == query::run(query::run(stack, a, va), b, vb),
    decreases b.len(),
{
    if b.len() == 0 {
        assert(a + b =~= a);
        assert(va + vb =~= va);
    } else {
        let n = b.len() - 1;
        assert((a + b).drop_last() =~= a + b.drop_last());
        assert(va + vb =~= (va + vb.take(n)).push(vb[n]));
        lemma_run_append(stack, a, va, b.drop_last(), vb.take(n));
        lemma_run_truths(stack, a + b.drop_last(), va + vb, va + vb.take(n));
        lemma_run_truths(query::run(stack, a, va), b.drop_last(), vb, vb.take(n));
    }
}

proof fn lemma_run_truths(
    stack: Seq<Frame>,
    tokens: Seq<TokenView>,
    u: Seq<Option<bool>>,
    v: Seq<Option<bool>>,
)
    requires
        tokens.len() <= u.len(),
        tokens.len() <= v.len(),
        forall|i: int| 0 <= i < tokens.len() ==> u[i] == v[i],
    ensures
        query::run(stack, tokens, u) == query::run(stack, tokens, v),
    decreases tokens.len(),
{
    if tokens.len() > 0 {
        lemma_run_truths(stack, tokens.drop_last(), u, v);
    }
}

/// Nested tokens leave the groups around them alone.
proof fn lemma_run_inside(
    outer: Seq<Frame>,
    top: Frame,
    tokens: Seq<TokenView>,
    truths: Seq<Option<bool>>,
)
    requires
        nested(tokens),
    ensures
        query::run(outer.push(top), tokens, truths) == outer + query::run(seq![top], tokens, truths),
        query::run(seq![top], tokens, truths).len() == 1 + depth(tokens),
    decreases tokens.len(),
{
    if tokens.len() == 0 {
        assert(outer.push(top) =~= outer + seq![top]);
    } else {
        lemma_prefix(tokens);
        lemma_run_inside(outer, top, tokens.drop_last(), truths);
        let inner = query::run(seq![top], tokens.drop_last(), truths);
        let v = truths[tokens.len() - 1];
        assert((outer + inner).last() == inner.last());
        assert((outer + inner).drop_last() =~= outer + inner.drop_last());
        match tokens.last() {
            TokenView::Open => {
                assert(query::step(outer + inner, tokens.last(), v) =~= outer + query::step(
                    inner,
                    tokens.last(),
                    v,
                ));
            },
            TokenView::Close => {
                assert(inner.len() > 1);
                assert((outer + inner.drop_last()).last() == inner.drop_last().last());
                assert((outer + inner.drop_last()).drop_last() =~= outer
                    + inner.drop_last().drop_last());
                assert(query::closed_top(outer + inner) =~= outer + query::closed_top(inner));
            },
            _ => {
                assert(query::step(outer + inner, tokens.last(), v) =~= outer + query::step(
                    inner,
                    tokens.last(),
                    v,
                ));
            },
        }
    }
}

/// A group in parentheses is true exactly when its content is, and `!` before
/// the parentheses negates it.
pub proof fn law_group(
    group: Seq<TokenView>,
    truths: Seq<Option<bool>>,
    x: Option<bool>,
    y: Option<bool>,
)
    requires
        balanced(group),
        group.len() == truths.len(),
    ensures
        query::query_value(
            seq![TokenView::Open] + group + seq![TokenView::Close],
            seq![x] + truths + seq![y],
        ) == query::query_value(group, truths),
        query::query_value(
            seq![TokenView::Not, TokenView::Open] + group + seq![TokenView::Close],
            seq![x, x] + truths + seq![y],
        ) == query::flipped(query::query_value(group, truths), true),
{
    let start = seq![Frame::fresh()];
    lemma_group_from(Frame::fresh(), group, truths, x, y);
    lemma_run_inside(Seq::empty(), Frame::fresh(), group, truths);
    let inner = query::run(start, group, truths);
    assert(inner =~= seq![inner[0]]);
    let not = seq![TokenView::Not];
    let rest = seq![TokenView::Open] + group + seq![TokenView::Close];
    let vrest = seq![x] + truths + seq![y];
    assert(seq![TokenView::Not, TokenView::Open] + group + seq![TokenView::Close] =~= not + rest);
    assert(seq![x, x] + truths + seq![y] =~= seq![x] + vrest);
    lemma_run_append(start, not, seq![x], rest, vrest);
    reveal_with_fuel(query::run, 2);
    let negated = Frame::fresh().with_not();
    assert(not.drop_last() =~= Seq::empty());
    assert(query::run(start, not, seq![x]) =~= seq![negated]);
    lemma_group_from(negated, group, truths, x, y);
}

proof fn lemma_group_from(
    top: Frame,
    group: Seq<TokenView>,
    truths: Seq<Option<bool>>,
    x: Option<bool>,
    y: Option<bool>,
)
    requires
        balanced(group),
        group.len() == truths.len(),
    ensures
        query::run(
            seq![top],
            seq![TokenView::Open] + group + seq![TokenView::Close],
            seq![x] + truths + seq![y],
        ) == seq![top.with_term(query::query_value(group, truths))],
{
    let open = seq![TokenView::Open];
    let close = seq![TokenView::Close];
    let start = seq![top];
    lemma_run_append(start, open + group, seq![x] + truths, close, seq![y]);
    lemma_run_append(start, open, seq![x], group, truths);
    reveal_with_fuel(query::run, 2);
    assert(open.drop_last() =~= Seq::empty());
    assert(close.drop_last() =~= Seq::empty());
    assert(query::run(start, open, seq![x]) =~= start.push(Frame::fresh()));
    lemma_run_inside(start, Frame::fresh(), group, truths);
    let inner = query::run(seq![Frame::fresh()], group, truths);
    let stack = start + inner;
    assert(stack.drop_last() =~= start);
    assert(query::closed_top(stack) =~= seq![top.with_term(inner[0].value())]);
}

/// The two stacks differ at most in what the outermost group had before: one
/// started with `done` alternatives.
spec fn later(s: Seq<Frame>, t: Seq<Frame>, done: Option<bool>) -> bool {
    &&& s.len() == t.len()
    &&& s.len() > 0
    &&& t[0] == (Frame { done: query::either(done, s[0].done), now: s[0].now, negate: s[0].negate })
    &&& forall|i: int| 0 < i < s.len() ==> s[i] == t[i]
}

proof fn lemma_later_top(s: Seq<Frame>, t: Seq<Frame>, done: Option<bool>)
    requires
        later(s, t, done),
        s.len() > 1,
    ensures
        later(query::closed_top(s), query::closed_top(t), done),
{
}

proof fn lemma_later_run(
    s: Seq<Frame>,
    t: Seq<Frame>,
    done: Option<bool>,
    tokens: Seq<TokenView>,
    truths: Seq<Option<bool>>,
)
    requires
        later(s, t, done),
    ensures
        later(query::run(s, tokens, truths), query::run(t, tokens, truths), done),
    decreases tokens.len(),
{
    if tokens.len() > 0 {
        lemma_later_run(s, t, done, tokens.drop_last(), truths);
        let a = query::run(s, tokens.drop_last(), truths);
        let b = query::run(t, tokens.drop_last(), truths);
        if tokens.last() == TokenView::Close && a.len() > 1 {
            lemma_later_top(a, b, done);
        }
    }
}

proof fn lemma_later_closed(s: Seq<Frame>, t: Seq<Frame>, done: Option<bool>)
    requires
        later(s, t, done),
    ensures
        query::closed(t).value() == query::either(done, query::closed(s).value()),
    decreases s.len(),
{
    if s.len() > 1 {
        lemma_later_top(s, t, done);
        lemma_later_closed(query::closed_top(s), query::closed_top(t), done);
    }
}

/// `a | b` is true when `a` is or `b` is, whatever `b` holds; a side that
/// constrains nothing is left out.
pub proof fn law_or(
    a: Seq<TokenView>,
    va: Seq<Option<bool>>,
    x: Option<bool>,
    b: Seq<TokenView>,
    vb: Seq<Option<bool>>,
)
    requires
        balanced(a),
        a.len() == va.len(),
        b.len() == vb.len(),
    ensures
        query::query_value(a + seq![TokenView::Or] + b, va + seq![x] + vb) == query::either(
            query::query_value(a, va),
            query::query_value(b, vb),
        ),
{
    let start = seq![Frame::fresh()];
    let or = seq![TokenView::Or];
    lemma_run_append(start, a + or, va + seq![x], b, vb);
    lemma_run_append(start, a, va, or, seq![x]);
    lemma_run_inside(Seq::empty(), Frame::fresh(), a, va);
    let left = query::run(start, a, va);
    reveal_with_fuel(query::run, 2);
    assert(or.drop_last() =~= Seq::empty());
    let done = left[0].value();
    let mid = query::run(left, or, seq![x]);
    assert(mid =~= seq![left[0].with_or()]);
    assert(later(start, mid, done));
    lemma_later_run(start, mid, done, b, vb);
    lemma_later_closed(query::run(start, b, vb), query::run(mid, b, vb), done);
}

/// The two stacks differ at most in the alternative that the outermost group has
/// under way, of which one had read `now` before, and that is their only
/// alternative.
spec fn narrower(s: Seq<Frame>, t: Seq<Frame>, now: Option<bool>) -> bool {
    &&& s.len() == t.len()
    &&& s.len() > 0
    &&& s[0].done is None
    &&& t[0] == (Frame { done: None, now: query::both(now, s[0].now), negate: s[0].negate })
    &&& forall|i: int| 0 < i < s.len() ==> s[i] == t[i]
}

proof fn lemma_narrower_top(s: Seq<Frame>, t: Seq<Frame>, now: Option<bool>)
    requires
        narrower(s, t, now),
        s.len() > 1,
    ensures
        narrower(query::closed_top(s), query::closed_top(t), now),
{
}

proof fn lemma_narrower_run(
    top: Frame,
    now: Option<bool>,
    tokens: Seq<TokenView>,
    truths: Seq<Option<bool>>,
)
    requires
        nested(tokens),
        single_alternative(tokens),
        top == (Frame { done: None, now, negate: false }),
    ensures
        narrower(
            query::run(seq![Frame::fresh()], tokens, truths),
            query::run(seq![top], tokens, truths),
            now,
        ),
    decreases tokens.len(),
{
    if tokens.len() > 0 {
        lemma_prefix(tokens);
        let front = tokens.drop_last();
        lemma_narrower_run(top, now, front, truths);
        lemma_run_inside(Seq::empty(), Frame::fresh(), front, truths);
        let a = query::run(seq![Frame::fresh()], front, truths);
        let b = query::run(seq![top], front, truths);
        if tokens.last() == TokenView::Close && a.len() > 1 {
            lemma_narrower_top(a, b, now);
        }
        if tokens.last() == TokenView::Or {
            assert(tokens[tokens.len() - 1] == TokenView::Or);
        }
    }
}

proof fn lemma_narrower_closed(s: Seq<Frame>, t: Seq<Frame>, now: Option<bool>)
    requires
        narrower(s, t, now),
    ensures
        query::closed(t).value() == query::both(now, query::closed(s).value()),
    decreases s.len(),
{
    if s.len() > 1 {
        lemma_narrower_top(s, t, now);
        lemma_narrower_closed(query::closed_top(s), query::closed_top(t), now);
    }
}

proof fn lemma_single_alternative(tokens: Seq<TokenView>, truths: Seq<Option<bool>>)
    requires
        balanced(tokens),
        single_alternative(tokens),
        tokens.len() > 0 ==> tokens.last() != TokenView::Not,
    ensures
        query::run(seq![Frame::fresh()], tokens, truths) == seq![
            Frame { done: None, now: query::query_value(tokens, truths), negate: false },
        ],
{
    let start = seq![Frame::fresh()];
    lemma_run_inside(Seq::empty(), Frame::fresh(), tokens, truths);
    lemma_narrower_run(Frame::fresh(), None, tokens, truths);
    let end = query::run(start, tokens, truths);
    assert(end.len() == 1);
    if tokens.len() > 0 {
        lemma_prefix(tokens);
        lemma_run_inside(Seq::empty(), Frame::fresh(), tokens.drop_last(), truths);
        if tokens.last() == TokenView::Or {
            assert(tokens[tokens.len() - 1] == TokenView::Or);
        }
        assert(!end[0].negate);
    }
    assert(end =~= seq![Frame { done: None, now: query::query_value(tokens, truths), negate: false }]);
}

/// `a b` is true when both `a` and `b` are, where neither side has a `|` outside
/// parentheses and `a` does not end in a `!`; a side that constrains nothing is
/// left out.
pub proof fn law_and(
    a: Seq<TokenView>,
    va: Seq<Option<bool>>,
    b: Seq<TokenView>,
    vb: Seq<Option<bool>>,
)
    requires
        balanced(a),
        single_alternative(a),
        a.len() > 0 ==> a.last() != TokenView::Not,
        nested(b),
        single_alternative(b),
        a.len() == va.len(),
        b.len() == vb.len(),
    ensures
        query::query_value(a + b, va + vb) == query::both(query::query_value(a, va), query::query_value(b, vb)),
{
    let start = seq![Frame::fresh()];
    lemma_run_append(start, a, va, b, vb);
    lemma_single_alternative(a, va);
    let now = query::query_value(a, va);
    let top = Frame { done: None, now, negate: false };
    lemma_narrower_run(top, now, b, vb);
    lemma_narrower_closed(query::run(start, b, vb), query::run(seq![top], b, vb), now);
}

/// `!` before a term negates it, and two `!` before anything cancel out.
pub proof fn law_not(
    term: TokenView,
    x: Option<bool>,
    v: Option<bool>,
    rest: Seq<TokenView>,
    vrest: Seq<Option<bool>>,
)
    requires
        term is Word || term is Phrase,
        rest.len() == vrest.len(),
    ensures
        query::query_value(seq![TokenView::Not, term], seq![x, v]) == query::flipped(v, true),
        query::query_value(seq![TokenView::Not, TokenView::Not] + rest, seq![x, x] + vrest)
            == query::query_value(rest, vrest),
{
    let start = seq![Frame::fresh()];
    reveal_with_fuel(query::run, 3);
    let one = seq![TokenView::Not, term];
    assert(one.drop_last() =~= seq![TokenView::Not]);
    assert(one.drop_last().drop_last() =~= Seq::empty());
    assert(query::run(start, one, seq![x, v]) =~= seq![Frame::fresh().with_not().with_term(v)]);
    let two = seq![TokenView::Not, TokenView::Not];
    assert(two.drop_last() =~= seq![TokenView::Not]);
    assert(two.drop_last().drop_last() =~= Seq::empty());
    assert(query::run(start, two, seq![x, x]) =~= start);
    lemma_run_append(start, two, seq![x, x], rest, vrest);
}

/// Parentheses that do not match are tolerated: a group that is still open at the
/// end is closed there, and a `)` at the end that closes nothing is passed over.
pub proof fn law_unmatched(tokens: Seq<TokenView>, truths: Seq<Option<bool>>, x: Option<bool>)
    requires
        tokens.len() == truths.len(),
    ensures
        query::query_value(tokens.push(TokenView::Close), truths.push(x)) == query::query_value(tokens, truths),
{
    let start = seq![Frame::fresh()];
    assert(tokens.push(TokenView::Close).drop_last() =~= tokens);
    lemma_run_truths(start, tokens, truths.push(x), truths);
    lemma_run_nonempty(start, tokens, truths);
}

/// A query without a term that constrains anything accepts, whatever operators
/// it holds.
pub proof fn law_unconstrained(tokens: Seq<TokenView>, truths: Seq<Option<bool>>)
    requires
        tokens.len() == truths.len(),
        forall|i: int| 0 <= i < truths.len() ==> truths[i] is None,
    ensures
        query::query_value(tokens, truths) is None,
        query::accepted(tokens, truths),
{
    let start = seq![Frame::fresh()];
    lemma_unconstrained_run(start, tokens, truths);
    lemma_run_nonempty(start, tokens, truths);
    lemma_unconstrained_closed(query::run(start, tokens, truths));
}

spec fn unconstrained(stack: Seq<Frame>) -> bool {
    forall|i: int| 0 <= i < stack.len() ==> (#[trigger] stack[i]).value() is None
}

proof fn lemma_unconstrained_run(
    stack: Seq<Frame>,
    tokens: Seq<TokenView>,
    truths: Seq<Option<bool>>,
)
    requires
        stack.len() > 0,
        unconstrained(stack),
        tokens.len() <= truths.len(),
        forall|i: int| 0 <= i < truths.len() ==> truths[i] is None,
    ensures
        unconstrained(query::run(stack, tokens, truths)),
    decreases tokens.len(),
{
    if tokens.len() > 0 {
        let front = tokens.drop_last();
        lemma_unconstrained_run(stack, front, truths);
        lemma_run_nonempty(stack, front, truths);
        let mid = query::run(stack, front, truths);
        assert(mid.last().value() is None);
        if mid.len() > 1 {
            assert(mid[mid.len() - 2].value() is None);
        }
        assert(truths[tokens.len() - 1] is None);
    }
}

proof fn lemma_unconstrained_closed(stack: Seq<Frame>)
    requires
        stack.len() > 0,
        unconstrained(stack),
    ensures
        query::closed(stack).value() is None,
    decreases stack.len(),
{
    if stack.len() > 1 {
        assert(stack.last().value() is None);
        assert(stack[stack.len() - 2].value() is None);
        lemma_unconstrained_closed(query::closed_top(stack));
    }
}

/// A query with a word or a phrase that constrains anything is itself a
/// constraint: it is true or false, never open.
pub proof fn law_constrained(tokens: Seq<TokenView>, truths: Seq<Option<bool>>, at: int)
    requires
        tokens.len() == truths.len(),
        0 <= at < tokens.len(),
        tokens[at] is Word || tokens[at] is Phrase,
        truths[at] is Some,
    ensures
        query::query_value(tokens, truths) is Some,
{
    let start = seq![Frame::fresh()];
    lemma_constrained_run(tokens, truths, at);
    lemma_constrained_closed(query::run(start, tokens, truths));
}

spec fn constrained(stack: Seq<Frame>) -> bool {
    exists|i: int| 0 <= i < stack.len() && (#[trigger] stack[i]).value() is Some
}

proof fn lemma_constrained_top(stack: Seq<Frame>)
    requires
        stack.len() > 1,
        constrained(stack),
    ensures
        constrained(query::closed_top(stack)),
{
    let i = choose|i: int| 0 <= i < stack.len() && (#[trigger] stack[i]).value() is Some;
    let after = query::closed_top(stack);
    if i < stack.len() - 2 {
        assert(after[i] == stack[i]);
    } else {
        assert(after[after.len() - 1].value() is Some);
    }
}

proof fn lemma_constrained_run(tokens: Seq<TokenView>, truths: Seq<Option<bool>>, at: int)
    requires
        tokens.len() <= truths.len(),
        0 <= at < tokens.len(),
        tokens[at] is Word || tokens[at] is Phrase,
        truths[at] is Some,
    ensures
        constrained(query::run(seq![Frame::fresh()], tokens, truths)),
    decreases tokens.len(),
{
    let start = seq![Frame::fresh()];
    let front = tokens.drop_last();
    let before = query::run(start, front, truths);
    let after = query::run(start, tokens, truths);
    lemma_run_nonempty(start, front, truths);
    let last = before.len() - 1;
    if at == tokens.len() - 1 {
        assert(after[last].value() is Some);
    } else {
        lemma_constrained_run(front, truths, at);
        let i = choose|i: int| 0 <= i < before.len() && (#[trigger] before[i]).value() is Some;
        if tokens.last() == TokenView::Close {
            if before.len() > 1 {
                lemma_constrained_top(before);
            }
        } else {
            assert(after[i].value() is Some);
        }
    }
}

proof fn lemma_constrained_closed(stack: Seq<Frame>)
    requires
        stack.len() > 0,
        constrained(stack),
    ensures
        query::closed(stack).value() is Some,
    decreases stack.len(),
{
    if stack.len() > 1 {
        lemma_constrained_top(stack);
        lemma_constrained_closed(query::closed_top(stack));
    }
}

/// How what two terms say is taken together: both have to hold, or either, where one that
/// constrains nothing is left out; a negated term says the opposite.
pub proof fn law_truths(a: bool, b: bool)
    ensures
        query::both(Some(a), Some(b)) == Some(a && b),
        query::both(Some(a), None) == Some(a) && query::both(None, Some(b)) == Some(b),
        query::both(None, None) is None,
        query::either(Some(a), Some(b)) == Some(a || b),
        query::either(Some(a), None) == Some(a) && query::either(None, Some(b)) == Some(b),
        query::either(None, None) is None,
        query::flipped(Some(a), true) == Some(!a),
        query::flipped(Some(a), false) == Some(a),
        query::flipped(None, true) is None,
{
}

} // verus!
