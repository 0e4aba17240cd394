//! The compiled query matcher.

use crate::pattern;
use crate::pattern::build_regex;
use crate::query;
use crate::query::{tokenize, Frame, Token, TokenView};
use crate::query_laws;
use crate::search;
use crate::search::{parse_word, phrase_pred, EntryView, Facts, Pred, PredView, SearchOptions};
use crate::search::{TextKind, TextTarget};
use crate::text;
use crate::text::{chars_of, string_of, trim};
use regex::Regex;
use vstd::prelude::*;

verus! {

/// A single test, or a parenthesised group.
pub enum Node {
    Test(Pred),
    Group(Vec<Conjunction>),
}

/// A node plus optional negation (`!`).
pub struct Leaf {
    pub negate: bool,
    pub node: Node,
}

/// A conjunction: all leaves must match (AND).
pub struct Conjunction {
    pub leaves: Vec<Leaf>,
}

/// Whether one of the conjunctions accepts an entry.
pub open spec fn any_holds(clauses: Seq<Conjunction>, case: bool, e: Facts) -> bool
    decreases clauses,
{
    if clauses.len() == 0 {
        false
    } else {
        any_holds(clauses.drop_last(), case, e) || all_hold(clauses.last().leaves@, case, e)
    }
}

/// Whether all the leaves accept an entry.
pub open spec fn all_hold(leaves: Seq<Leaf>, case: bool, e: Facts) -> bool
    decreases leaves,
{
    if leaves.len() == 0 {
        true
    } else {
        all_hold(leaves.drop_last(), case, e) && (node_holds(leaves.last().node, case, e)
            != leaves.last().negate)
    }
}

/// Whether a node accepts an entry.
pub open spec fn node_holds(node: Node, case: bool, e: Facts) -> bool
    decreases node,
{
    match node {
        Node::Test(p) => p@.holds(case, e),
        Node::Group(clauses) => any_holds(clauses@, case, e),
    }
}

/// Whether one of the conjunctions accepts an entry.
fn eval_clauses(clauses: &Vec<Conjunction>, case: bool, e: &EntryView) -> (r: bool)
    ensures
        r == any_holds(clauses@, case, e@),
    decreases clauses,
{
    let mut i: usize = 0;
    while i < clauses.len()
        invariant
            i <= clauses@.len(),
            !any_holds(clauses@.take(i as int), case, e@),
        decreases clauses@.len() - i,
    {
        assert(clauses@.take(i + 1).drop_last() =~= clauses@.take(i as int));
        if eval_leaves(&clauses[i].leaves, case, e) {
            proof {
                lemma_any_prefix(clauses@, i + 1, case, e@);
            }
            return true;
        }
        i += 1;
    }
    assert(clauses@.take(i as int) =~= clauses@);
    false
}

/// Whether all the leaves accept an entry.
fn eval_leaves(leaves: &Vec<Leaf>, case: bool, e: &EntryView) -> (r: bool)
    ensures
        r == all_hold(leaves@, case, e@),
    decreases leaves,
{
    let mut i: usize = 0;
    while i < leaves.len()
        invariant
            i <= leaves@.len(),
            all_hold(leaves@.take(i as int), case, e@),
        decreases leaves@.len() - i,
    {
        assert(leaves@.take(i + 1).drop_last() =~= leaves@.take(i as int));
        if eval_node(&leaves[i].node, case, e) == leaves[i].negate {
            proof {
                lemma_all_prefix(leaves@, i + 1, case, e@);
            }
            return false;
        }
        i += 1;
    }
    assert(leaves@.take(i as int) =~= leaves@);
    true
}

/// Whether a node accepts an entry.
fn eval_node(node: &Node, case: bool, e: &EntryView) -> (r: bool)
    ensures
        r == node_holds(*node, case, e@),
    decreases node,
{
    match node {
        Node::Test(p) => p.eval(case, e),
        Node::Group(clauses) => eval_clauses(clauses, case, e),
    }
}

proof fn lemma_any_prefix(clauses: Seq<Conjunction>, n: int, case: bool, e: Facts)
    requires
        0 <= n <= clauses.len(),
        any_holds(clauses.take(n), case, e),
    ensures
        any_holds(clauses, case, e),
    decreases clauses.len() - n,
{
    if n == clauses.len() {
        assert(clauses.take(n) =~= clauses);
    } else {
        assert(clauses.take(n + 1).drop_last() =~= clauses.take(n));
        lemma_any_prefix(clauses, n + 1, case, e);
    }
}

proof fn lemma_all_prefix(leaves: Seq<Leaf>, n: int, case: bool, e: Facts)
    requires
        0 <= n <= leaves.len(),
        !all_hold(leaves.take(n), case, e),
    ensures
        !all_hold(leaves, case, e),
    decreases leaves.len() - n,
{
    if n == leaves.len() {
        assert(leaves.take(n) =~= leaves);
    } else {
        assert(leaves.take(n + 1).drop_last() =~= leaves.take(n));
        lemma_all_prefix(leaves, n + 1, case, e);
    }
}

/// A compiled query: a disjunction of conjunctions (OR of ANDs). An empty set of
/// clauses matches everything.
pub struct Matcher {
    pub clauses: Vec<Conjunction>,
    pub match_case: bool,
    pub needs_path: bool,
}

/// Whether two entries differ at most in their paths.
pub open spec fn same_but_path(a: Facts, b: Facts) -> bool {
    &&& a.name == b.name
    &&& a.name_lower == b.name_lower
    &&& a.is_dir == b.is_dir
    &&& a.size == b.size
    &&& a.modified_ms == b.modified_ms
    &&& a.created_ms == b.created_ms
    &&& a.accessed_ms == b.accessed_ms
    &&& a.attributes == b.attributes
}

impl Matcher {
    /// Whether the path plays no part unless the matcher says that it needs it.
    pub open spec fn honest(self) -> bool {
        !self.needs_path ==> forall|a: Facts, b: Facts|
            #![trigger self.accepts(a), self.accepts(b)]
            same_but_path(a, b) ==> self.accepts(a) == self.accepts(b)
    }

    /// Whether the query accepts an entry.
    pub open spec fn accepts(self, e: Facts) -> bool {
        self.clauses@.len() == 0 || any_holds(self.clauses@, self.match_case, e)
    }

    /// True when nothing constrains the result set (so every entry matches).
    pub fn matches_all(&self) -> (r: bool)
        ensures
            r == (self.clauses@.len() == 0),
    {
        self.clauses.len() == 0
    }

    /// Whether matching requires the reconstructed full path.
    pub fn needs_path(&self) -> (r: bool)
        ensures
            r == self.needs_path,
    {
        self.needs_path
    }

    /// Test one entry. `e.path`/`e.path_lower` may be empty when `needs_path()`
    /// is false (no predicate looks at the path).
    pub fn eval(&self, e: &EntryView) -> (r: bool)
        ensures
            r == self.accepts(e@),
    {
        self.clauses.len() == 0 || eval_clauses(&self.clauses, self.match_case, e)
    }
}

/// A group whose tokens are being read.
struct Group {
    clauses: Vec<Conjunction>,
    current: Vec<Leaf>,
    negate: bool,
}

/// The truth of the alternatives, `None` when there is none.
pub open spec fn clauses_value(clauses: Seq<Conjunction>, case: bool, e: Facts) -> Option<bool> {
    if clauses.len() == 0 {
        None
    } else {
        Some(any_holds(clauses, case, e))
    }
}

/// The truth of a conjunction, `None` when it has no leaf.
spec fn leaves_value(leaves: Seq<Leaf>, case: bool, e: Facts) -> Option<bool> {
    if leaves.len() == 0 {
        None
    } else {
        Some(all_hold(leaves, case, e))
    }
}

impl Group {
    /// The truth of the group so far.
    spec fn frame(self, case: bool, e: Facts) -> Frame {
        Frame {
            done: clauses_value(self.clauses@, case, e),
            now: leaves_value(self.current@, case, e),
            negate: self.negate,
        }
    }

    fn new() -> (r: Self)
        ensures
            forall|case: bool, e: Facts| #[trigger] r.frame(case, e) == Frame::fresh(),
    {
        Group { clauses: Vec::new(), current: Vec::new(), negate: false }
    }

    /// The group with one more leaf.
    fn with_leaf(self, node: Node) -> (r: Self)
        ensures
            forall|case: bool, e: Facts| #[trigger]
                r.frame(case, e) == self.frame(case, e).with_term(Some(node_holds(node, case, e))),
    {
        let Group { clauses, mut current, negate } = self;
        let ghost before = current@;
        let ghost leaf = Leaf { negate, node };
        current.push(Leaf { negate, node });
        assert(current@.drop_last() =~= before);
        assert(current@.last() == leaf);
        let r = Group { clauses, current, negate: false };
        assert forall|case: bool, e: Facts| #[trigger] r.frame(case, e) == self.frame(
            case,
            e,
        ).with_term(Some(node_holds(node, case, e))) by {
            assert(all_hold(r.current@, case, e) == (all_hold(before, case, e) && (node_holds(
                node,
                case,
                e,
            ) != negate)));
            if before.len() == 0 {
                assert(all_hold(before, case, e));
            }
        }
        r
    }

    /// The group after a term that is no test.
    fn without_leaf(self) -> (r: Self)
        ensures
            forall|case: bool, e: Facts| #[trigger]
                r.frame(case, e) == self.frame(case, e).with_term(None),
    {
        let Group { clauses, current, negate } = self;
        Group { clauses, current, negate: false }
    }

    /// All the alternatives of the group, when it ends here.
    fn finish(self) -> (r: Vec<Conjunction>)
        ensures
            forall|case: bool, e: Facts|
                clauses_value(r@, case, e) == #[trigger] self.frame(case, e).value(),
    {
        let Group { mut clauses, current, negate } = self;
        let ghost before = clauses@;
        let ghost now = current@;
        if current.len() > 0 {
            clauses.push(Conjunction { leaves: current });
            assert(clauses@.drop_last() =~= before);
            assert(clauses@.last().leaves@ == now);
        }
        assert forall|case: bool, e: Facts| clauses_value(clauses@, case, e) == #[trigger] self.frame(
            case,
            e,
        ).value() by {
            if now.len() > 0 {
                assert(any_holds(clauses@, case, e) == (any_holds(before, case, e) || all_hold(
                    now,
                    case,
                    e,
                )));
                if before.len() == 0 {
                    assert(!any_holds(before, case, e));
                }
            }
        }
        clauses
    }

    /// The group after a `|`.
    fn with_or(self) -> (r: Self)
        ensures
            forall|case: bool, e: Facts| #[trigger]
                r.frame(case, e) == self.frame(case, e).with_or(),
    {
        let clauses = self.finish();
        let r = Group { clauses, current: Vec::new(), negate: false };
        assert forall|case: bool, e: Facts| #[trigger] r.frame(case, e) == self.frame(
            case,
            e,
        ).with_or() by {
            assert(clauses_value(clauses@, case, e) == self.frame(case, e).value());
        }
        r
    }

    /// The group after a `!`.
    fn with_not(self) -> (r: Self)
        ensures
            forall|case: bool, e: Facts| #[trigger]
                r.frame(case, e) == self.frame(case, e).with_not(),
    {
        let Group { clauses, current, negate } = self;
        Group { clauses, current, negate: !negate }
    }

    /// The group after the group `inner` in it has ended.
    fn with_group(self, inner: Group) -> (r: Self)
        ensures
            forall|case: bool, e: Facts| #[trigger]
                r.frame(case, e) == self.frame(case, e).with_term(inner.frame(case, e).value()),
    {
        let clauses = inner.finish();
        if clauses.len() == 0 {
            let r = self.without_leaf();
            assert forall|case: bool, e: Facts| #[trigger] r.frame(case, e) == self.frame(
                case,
                e,
            ).with_term(inner.frame(case, e).value()) by {
                assert(clauses_value(clauses@, case, e) == inner.frame(case, e).value());
            }
            r
        } else {
            let ghost shown = clauses@;
            let r = self.with_leaf(Node::Group(clauses));
            assert forall|case: bool, e: Facts| #[trigger] r.frame(case, e) == self.frame(
                case,
                e,
            ).with_term(inner.frame(case, e).value()) by {
                assert(clauses_value(shown, case, e) == inner.frame(case, e).value());
            }
            r
        }
    }
}

/// The truths of the open groups, outermost first.
spec fn frames(open: Seq<Group>, case: bool, e: Facts) -> Seq<Frame> {
    open.map_values(|g: Group| g.frame(case, e))
}

/// The truth of a test, if there is one.
pub open spec fn truth(p: Option<PredView>, case: bool, e: Facts) -> Option<bool> {
    match p {
        Some(q) => Some(q.holds(case, e)),
        None => None,
    }
}

/// The truths of the tests on one entry.
pub open spec fn truths(preds: Seq<Option<PredView>>, case: bool, e: Facts) -> Seq<Option<bool>> {
    preds.map_values(|p: Option<PredView>| truth(p, case, e))
}

/// What the tests stand for.
pub open spec fn shown_all(preds: Seq<Option<Pred>>) -> Seq<Option<PredView>> {
    preds.map_values(|p: Option<Pred>| search::shown(p))
}

/// The open groups after one token, whose test is `pred`.
fn feed(open: &mut Vec<Group>, token: &Token, pred: Option<Pred>)
    requires
        old(open)@.len() > 0,
    ensures
        final(open)@.len() > 0,
        forall|case: bool, e: Facts| #[trigger]
            frames(final(open)@, case, e) == query::step(
                frames(old(open)@, case, e),
                token@,
                truth(search::shown(pred), case, e),
            ),
{
    let ghost before = open@;
    let ghost shown = search::shown(pred);
    let top = open.pop().unwrap();
    assert(open@ =~= before.drop_last());
    match token {
        Token::Open => {
            open.push(top);
            assert(open@ =~= before);
            let inner = Group::new();
            open.push(inner);
            assert forall|case: bool, e: Facts| #[trigger] frames(open@, case, e) == query::step(
                frames(before, case, e),
                token@,
                truth(shown, case, e),
            ) by {
                assert(inner.frame(case, e) == Frame::fresh());
                assert(frames(open@, case, e) =~= frames(before, case, e).push(Frame::fresh()));
            }
        },
        Token::Close => {
            if open.len() > 0 {
                let outer = open.pop().unwrap();
                let ghost around = open@;
                let next = outer.with_group(top);
                open.push(next);
                assert forall|case: bool, e: Facts| #[trigger] frames(open@, case, e)
                    == query::step(frames(before, case, e), token@, truth(shown, case, e)) by {
                    let s = frames(before, case, e);
                    assert(s.last() == top.frame(case, e));
                    assert(s.drop_last().last() == outer.frame(case, e));
                    assert(next.frame(case, e) == outer.frame(case, e).with_term(
                        top.frame(case, e).value(),
                    ));
                    assert(frames(open@, case, e) =~= query::closed_top(s));
                }
            } else {
                open.push(top);
                assert(open@ =~= before);
            }
        },
        _ => {
            let next = match token {
                Token::Or => top.with_or(),
                Token::Not => top.with_not(),
                _ => match pred {
                    Some(p) => top.with_leaf(Node::Test(p)),
                    None => top.without_leaf(),
                },
            };
            open.push(next);
            assert forall|case: bool, e: Facts| #[trigger] frames(open@, case, e) == query::step(
                frames(before, case, e),
                token@,
                truth(shown, case, e),
            ) by {
                let s = frames(before, case, e);
                assert(s.last() == top.frame(case, e));
                let f = next.frame(case, e);
                assert(frames(open@, case, e) =~= query::with_top(s, f));
            }
        },
    }
}

/// Close the groups that are still open and hand out the outermost.
fn close_all(open: Vec<Group>) -> (r: Group)
    requires
        open@.len() > 0,
    ensures
        forall|case: bool, e: Facts| #[trigger]
            r.frame(case, e) == query::closed(frames(open@, case, e)),
{
    let mut left = open;
    let mut top = left.pop().unwrap();
    assert(left@.push(top) =~= open@);
    while left.len() > 0
        invariant
            forall|case: bool, e: Facts| #[trigger]
                query::closed(frames(left@.push(top), case, e)) == query::closed(
                    frames(open@, case, e),
                ),
        decreases left@.len(),
    {
        let ghost before = left@.push(top);
        let ghost inner = top;
        let outer = left.pop().unwrap();
        top = outer.with_group(top);
        assert forall|case: bool, e: Facts| #[trigger] query::closed(
            frames(left@.push(top), case, e),
        ) == query::closed(frames(open@, case, e)) by {
            let s = frames(before, case, e);
            assert(query::closed(s) == query::closed(frames(open@, case, e)));
            assert(s.last() == inner.frame(case, e));
            assert(s.drop_last().last() == outer.frame(case, e));
            assert(top.frame(case, e) == outer.frame(case, e).with_term(
                inner.frame(case, e).value(),
            ));
            assert(frames(left@.push(top), case, e) =~= query::closed_top(s));
        }
    }
    assert forall|case: bool, e: Facts| #[trigger] top.frame(case, e) == query::closed(
        frames(open@, case, e),
    ) by {
        assert(left@.push(top) =~= seq![top]);
        assert(frames(seq![top], case, e)[0] == top.frame(case, e));
        assert(query::closed(frames(left@.push(top), case, e)) == query::closed(
            frames(open@, case, e),
        ));
    }
    top
}

/// The alternatives of a query, given its tokens and the test that each word and
/// phrase stands for. A term without a test is left out, and so is an
/// alternative or a group without a term.
pub fn assemble(tokens: &Vec<Token>, preds: Vec<Option<Pred>>) -> (r: Vec<Conjunction>)
    requires
        tokens@.len() == preds@.len(),
    ensures
        forall|case: bool, e: Facts| #[trigger]
            clauses_value(r@, case, e) == query::query_value(
                query::views(tokens@),
                truths(shown_all(preds@), case, e),
            ),
{
    let ghost all = preds@;
    let ghost words = query::views(tokens@);
    let mut preds = preds;
    let mut open: Vec<Group> = Vec::new();
    let first = Group::new();
    open.push(first);
    let mut i: usize = 0;
    assert forall|case: bool, e: Facts| #[trigger] frames(open@, case, e) == query::run(
        seq![Frame::fresh()],
        words.take(0),
        truths(shown_all(all), case, e),
    ) by {
        assert(first.frame(case, e) == Frame::fresh());
        assert(frames(open@, case, e) =~= seq![Frame::fresh()]);
        assert(words.take(0) =~= Seq::empty());
    }
    while i < tokens.len()
        invariant
            i <= tokens@.len(),
            tokens@.len() == all.len(),
            preds@.len() == all.len(),
            forall|k: int| i <= k < all.len() ==> preds@[k] == all[k],
            words == query::views(tokens@),
            open@.len() > 0,
            forall|case: bool, e: Facts| #[trigger]
                frames(open@, case, e) == query::run(
                    seq![Frame::fresh()],
                    words.take(i as int),
                    truths(shown_all(all), case, e),
                ),
        decreases tokens@.len() - i,
    {
        let ghost before = open@;
        let pred = preds[i].take();
        feed(&mut open, &tokens[i], pred);
        assert forall|case: bool, e: Facts| #[trigger] frames(open@, case, e) == query::run(
            seq![Frame::fresh()],
            words.take(i + 1),
            truths(shown_all(all), case, e),
        ) by {
            assert(words.take(i + 1).drop_last() =~= words.take(i as int));
            assert(words.take(i + 1).last() == tokens@[i as int]@);
            assert(truths(shown_all(all), case, e)[i as int] == truth(
                search::shown(pred),
                case,
                e,
            ));
            assert(frames(before, case, e) == query::run(
                seq![Frame::fresh()],
                words.take(i as int),
                truths(shown_all(all), case, e),
            ));
        }
        i += 1;
    }
    assert(words.take(i as int) =~= words);
    let whole = close_all(open);
    let r = whole.finish();
    assert forall|case: bool, e: Facts| #[trigger] clauses_value(r@, case, e) == query::query_value(
        words,
        truths(shown_all(all), case, e),
    ) by {
        assert(frames(open@, case, e) == query::run(
            seq![Frame::fresh()],
            words,
            truths(shown_all(all), case, e),
        ));
        assert(whole.frame(case, e) == query::closed(frames(open@, case, e)));
        assert(clauses_value(r@, case, e) == whole.frame(case, e).value());
    }
    r
}

/// Whether a matcher is what a query in the plain syntax compiles to, where
/// `preds` holds the tests of its tokens.
pub open spec fn compiled_with(
    m: Matcher,
    opts: SearchOptions,
    preds: Seq<Option<PredView>>,
) -> bool {
    let tokens = query::tokens_of(opts.query@);
    &&& preds.len() == tokens.len()
    &&& forall|i: int|
        0 <= i < tokens.len() ==> search::token_yields(#[trigger] tokens[i], opts, preds[i])
    &&& m.match_case == opts.match_case
    &&& forall|e: Facts| #[trigger]
        m.accepts(e) == query::accepted(tokens, truths(preds, opts.match_case, e))
    &&& m.clauses@.len() == 0 <==> forall|i: int| 0 <= i < preds.len() ==> preds[i] is None
    &&& m.needs_path <==> exists|i: int|
        0 <= i < tokens.len() && search::token_needs_path(#[trigger] tokens[i], opts)
}

/// Whether a matcher is what a query in the plain syntax compiles to.
pub open spec fn compiled(m: Matcher, opts: SearchOptions) -> bool {
    exists|preds: Seq<Option<PredView>>| compiled_with(m, opts, preds)
}

/// The text that a regular expression is held against.
pub open spec fn regex_target(opts: SearchOptions, e: Facts) -> Seq<char> {
    if opts.match_path {
        e.path
    } else {
        e.name
    }
}

/// Whether a matcher is what a query in regex mode compiles to: the whole query
/// is one expression, which the engine accepted, and a blank query constrains nothing.
pub open spec fn compiled_regex(m: Matcher, opts: SearchOptions) -> bool {
    let q = text::trimmed(opts.query@);
    &&& m.match_case == opts.match_case
    &&& m.clauses@.len() == 0 <==> q.len() == 0
    &&& q.len() == 0 ==> !m.needs_path
    &&& q.len() > 0 ==> m.needs_path == opts.match_path
    &&& q.len() > 0 ==> pattern::accepts(q, !opts.match_case)
    &&& q.len() > 0 ==> forall|e: Facts| #[trigger]
        m.accepts(e) == pattern::regex_matches(q, !opts.match_case, regex_target(opts, e))
}

/// The matcher of a query in regex mode that has compiled to `re`.
pub fn regex_matcher(re: Regex, opts: &SearchOptions) -> (r: Matcher)
    ensures
        r.match_case == opts.match_case,
        r.clauses@.len() > 0,
        r.needs_path == opts.match_path,
        forall|e: Facts| #[trigger]
            r.accepts(e) == pattern::regex_matches(
                pattern::regex_source(re).0,
                pattern::regex_source(re).1,
                regex_target(*opts, e),
            ),
{
    let target = if opts.match_path {
        TextTarget::Path
    } else {
        TextTarget::Name
    };
    let pred = Pred::Text { target, kind: TextKind::Re(re) };
    let leaf = Leaf { negate: false, node: Node::Test(pred) };
    let mut leaves: Vec<Leaf> = Vec::new();
    leaves.push(leaf);
    let conjunction = Conjunction { leaves };
    let mut clauses: Vec<Conjunction> = Vec::new();
    clauses.push(conjunction);
    let r = Matcher { clauses, match_case: opts.match_case, needs_path: opts.match_path };
    assert forall|e: Facts| #[trigger] r.accepts(e) == pred@.holds(opts.match_case, e) by {
        let none: Seq<Conjunction> = Seq::empty();
        assert(clauses@.drop_last() =~= none);
        assert(leaves@.drop_last() =~= Seq::<Leaf>::empty());
        assert(!any_holds(none, r.match_case, e));
        assert(all_hold(Seq::<Leaf>::empty(), r.match_case, e));
        assert(all_hold(leaves@, r.match_case, e) == node_holds(leaf.node, r.match_case, e));
    }
    r
}

/// The test of one token, and whether it looks at the path.
fn token_pred(token: &Token, opts: &SearchOptions) -> (r: (Option<Pred>, bool))
    ensures
        search::token_yields(token@, *opts, search::shown(r.0)),
        r.1 == search::token_needs_path(token@, *opts),
{
    match token {
        Token::Word(w) => parse_word(w.as_str(), opts),
        Token::Phrase(p) => (Some(phrase_pred(p.as_str(), opts)), opts.match_path),
        _ => (None, false),
    }
}

impl Matcher {
    /// Compile search options into a matcher, or return a user-facing error
    /// (an invalid regex).
    pub fn compile(opts: &SearchOptions) -> (r: Result<Self, String>)
        ensures
            !opts.regex ==> r is Ok && compiled(r->Ok_0, *opts),
            opts.regex && text::trimmed(opts.query@).len() == 0 ==> r is Ok,
            opts.regex && r is Ok ==> compiled_regex(r->Ok_0, *opts),
            r matches Ok(m) ==> m.honest(),
            r matches Err(m) ==> opts.regex && pattern::refused_saying(
                text::trimmed(opts.query@),
                !opts.match_case,
                m@,
            ),
    {
        if opts.regex {
            let chars = chars_of(opts.query.as_str());
            let trimmed = trim(chars.as_slice());
            if trimmed.len() == 0 {
                return Ok(
                    Matcher { clauses: Vec::new(), match_case: opts.match_case, needs_path: false },
                );
            }
            let expression = string_of(trimmed.as_slice());
            return match build_regex(expression.as_str(), opts.match_case) {
                Ok(re) => {
                    assert(pattern::accepts(text::trimmed(opts.query@), !opts.match_case));
                    Ok(regex_matcher(re, opts))
                },
                Err(m) => Err(m),
            };
        }
        let m = Self::compile_plain(opts);
        proof {
            lemma_honest(m, *opts);
        }
        Ok(m)
    }

    /// Compile a query in the plain syntax.
    fn compile_plain(opts: &SearchOptions) -> (r: Self)
        ensures
            compiled(r, *opts),
    {
        let tokens = tokenize(opts.query.as_str());
        let ghost words = query::tokens_of(opts.query@);
        let mut preds: Vec<Option<Pred>> = Vec::new();
        let mut needs_path = false;
        let mut i: usize = 0;
        while i < tokens.len()
            invariant
                i <= tokens@.len(),
                words == query::views(tokens@),
                preds@.len() == i,
                forall|k: int|
                    0 <= k < i ==> search::token_yields(
                        #[trigger] words[k],
                        *opts,
                        search::shown(preds@[k]),
                    ),
                needs_path <==> exists|k: int|
                    0 <= k < i && search::token_needs_path(#[trigger] words[k], *opts),
            decreases tokens@.len() - i,
        {
            let (pred, path) = token_pred(&tokens[i], opts);
            assert(words[i as int] == tokens@[i as int]@);
            preds.push(pred);
            needs_path = needs_path || path;
            i += 1;
        }
        let ghost shown = shown_all(preds@);
        let clauses = assemble(&tokens, preds);
        let r = Matcher { clauses, match_case: opts.match_case, needs_path };
        proof {
            assert forall|k: int| 0 <= k < words.len() implies search::token_yields(
                #[trigger] words[k],
                *opts,
                shown[k],
            ) by {
                assert(shown[k] == search::shown(preds@[k]));
            }
            assert forall|e: Facts| #[trigger] r.accepts(e) == query::accepted(
                words,
                truths(shown, opts.match_case, e),
            ) by {
                assert(clauses_value(clauses@, opts.match_case, e) == query::query_value(
                    words,
                    truths(shown, opts.match_case, e),
                ));
            }
            lemma_unconstrained(words, shown, clauses@, *opts);
            assert(compiled_with(r, *opts, shown));
        }
        r
    }
}

/// A token that needs no path becomes a test that looks at none.
proof fn lemma_pathless(
    token: TokenView,
    opts: SearchOptions,
    p: Option<PredView>,
    case: bool,
    a: Facts,
    b: Facts,
)
    requires
        search::token_yields(token, opts, p),
        !search::token_needs_path(token, opts),
        same_but_path(a, b),
    ensures
        truth(p, case, a) == truth(p, case, b),
{
}

proof fn lemma_honest(m: Matcher, opts: SearchOptions)
    requires
        compiled(m, opts),
    ensures
        m.honest(),
{
    let words = query::tokens_of(opts.query@);
    let preds = choose|preds: Seq<Option<PredView>>| compiled_with(m, opts, preds);
    if !m.needs_path {
        assert forall|a: Facts, b: Facts|
            #![trigger m.accepts(a), m.accepts(b)]
            same_but_path(a, b) implies m.accepts(a) == m.accepts(b) by {
            let case = opts.match_case;
            assert forall|i: int| 0 <= i < preds.len() implies truths(preds, case, a)[i] == truths(
                preds,
                case,
                b,
            )[i] by {
                assert(search::token_yields(words[i], opts, preds[i]));
                assert(!search::token_needs_path(words[i], opts));
                lemma_pathless(words[i], opts, preds[i], case, a, b);
            }
            assert(truths(preds, case, a) =~= truths(preds, case, b));
        }
    }
}

proof fn lemma_unconstrained(
    words: Seq<TokenView>,
    preds: Seq<Option<PredView>>,
    clauses: Seq<Conjunction>,
    opts: SearchOptions,
)
    requires
        preds.len() == words.len(),
        forall|i: int|
            0 <= i < words.len() ==> search::token_yields(#[trigger] words[i], opts, preds[i]),
        forall|case: bool, e: Facts| #[trigger]
            clauses_value(clauses, case, e) == query::query_value(words, truths(preds, case, e)),
    ensures
        clauses.len() == 0 <==> forall|i: int| 0 <= i < preds.len() ==> preds[i] is None,
{
    let e: Facts = vstd::pervasive::arbitrary();
    let t = truths(preds, true, e);
    assert(clauses_value(clauses, true, e) == query::query_value(words, t));
    if forall|i: int| 0 <= i < preds.len() ==> preds[i] is None {
        query_laws::law_unconstrained(words, t);
    } else {
        let at = choose|i: int| 0 <= i < preds.len() && preds[i] is Some;
        assert(preds[at] is Some);
        assert(search::token_yields(words[at], opts, preds[at]));
        query_laws::law_constrained(words, t, at);
    }
}

} // verus!
