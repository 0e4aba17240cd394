//! Laws of the words of a query: what a query of one word accepts, by what is known of
//! an entry.

use crate::dates;
use crate::dates::DateFilter;
use crate::matcher;
use crate::matcher::Matcher;
use crate::matcher_laws;
use crate::pattern;
use crate::query;
use crate::query::TokenView;
use crate::search;
use crate::search::{Facts, PredView, SearchOptions};
use crate::size;
use crate::text;
use vstd::prelude::*;

verus! {

/// Whether a matcher is that of the one-word query `w`.
pub open spec fn matches_word(m: Matcher, opts: SearchOptions, w: Seq<char>) -> bool {
    &&& opts.query@ == w
    &&& matcher_laws::single_word(w)
    &&& matcher::compiled(m, opts)
}

/// A matcher of one word is the test that the word became.
proof fn lemma_test(m: Matcher, opts: SearchOptions) -> (p: Option<PredView>)
    requires
        matcher_laws::single_word(opts.query@),
        matcher::compiled(m, opts),
    ensures
        search::word_yields(opts.query@, opts, p),
        m.clauses@.len() == 0 <==> p is None,
        forall|e: Facts| #[trigger]
            m.accepts(e) == (p is None || (p->0).holds(opts.match_case, e)),
{
    let w = opts.query@;
    let preds = choose|preds: Seq<Option<PredView>>| matcher::compiled_with(m, opts, preds);
    matcher_laws::lemma_word_first(w, Seq::empty());
    let tokens = query::tokens_of(w);
    let p = preds[0];
    let test = |t: TokenView| p;
    assert(tokens.map_values(test) =~= preds);
    assert(search::token_yields(tokens[0], opts, preds[0]));
    assert forall|e: Facts| #[trigger]
        m.accepts(e) == (p is None || (p->0).holds(opts.match_case, e)) by {
        matcher_laws::lemma_word_matcher(m, opts, test, e);
    }
    let e: Facts = vstd::pervasive::arbitrary();
    matcher_laws::lemma_word_matcher(m, opts, test, e);
    p
}

pub(crate) proof fn lemma_no_prefix(w: Seq<char>, p: Seq<char>, k: int)
    requires
        0 <= k < p.len(),
        k < w.len() ==> w[k] != p[k],
    ensures
        !text::has_prefix(w, p),
{
    if text::has_prefix(w, p) {
        assert(w.take(p.len() as int)[k] == p[k]);
    }
}

proof fn lemma_not_folded(w: Seq<char>, p: Seq<char>, k: int)
    requires
        0 <= k < p.len(),
        k < w.len() ==> text::ascii_lower(w[k]) != text::ascii_lower(p[k]),
    ensures
        !search::same_folded(w, p),
{
    if search::same_folded(w, p) {
        let (a, b) = (text::ascii_lowered(w), text::ascii_lowered(p));
        assert(a.len() == b.len());
        assert(a[k] == text::ascii_lower(w[k]) && b[k] == text::ascii_lower(p[k]));
    }
}

pub(crate) proof fn lemma_prefix(p: Seq<char>, v: Seq<char>)
    ensures
        text::has_prefix(p + v, p),
        (p + v).skip(p.len() as int) == v,
{
    assert((p + v).take(p.len() as int) =~= p);
    assert((p + v).skip(p.len() as int) =~= v);
}

/// A word of a function is no request for files or folders: those end with their colon.
proof fn lemma_no_kind(w: Seq<char>, k: int)
    requires
        0 <= k < w.len() - 1,
        w[k] == ':',
    ensures
        !search::asks_file(w),
        !search::asks_folder(w),
{
    reveal_strlit("file:");
    reveal_strlit("files:");
    reveal_strlit("folder:");
    reveal_strlit("folders:");
    reveal_strlit("dir:");
    assert(text::ascii_lower(':') == ':');
    if k < 5 {
        if k < 4 {
            lemma_not_folded(w, "file:"@, k);
        } else {
            assert(w.len() > 5);
            if search::same_folded(w, "file:"@) {
                assert(text::ascii_lowered(w).len() == w.len());
            }
        }
        lemma_not_folded(w, "files:"@, k);
        lemma_not_folded(w, "folder:"@, k);
        lemma_not_folded(w, "folders:"@, k);
    } else {
        assert(text::ascii_lowered(w).len() == w.len());
        assert(w.len() > 6);
        if k < 7 {
            if k < 6 {
                lemma_not_folded(w, "folder:"@, k);
            }
            lemma_not_folded(w, "folders:"@, k);
        }
    }
    if k < 3 {
        lemma_not_folded(w, "dir:"@, k);
    } else {
        assert(text::ascii_lowered(w).len() == w.len());
    }
}

/// Whether a known time lies within the bounds of a filter; an unknown one never does.
pub open spec fn time_within(t: Option<i64>, f: DateFilter) -> bool {
    t matches Some(ms) && (f.min matches Some(a) ==> a <= ms) && (f.max matches Some(b) ==> ms
        <= b)
}

proof fn lemma_date_word(w: Seq<char>, opts: SearchOptions, c: char, v: Seq<char>, p: Option<PredView>)
    requires
        w == seq!['d', c, ':'] + v,
        v.len() > 0,
        c == 'm' || c == 'c' || c == 'a',
        search::word_yields(w, opts, p),
    ensures
        p is None ==> dates::filter_read(v, None),
        p matches Some(q) ==> (q matches PredView::Date { field, filter } && dates::filter_read(
            v,
            Some(filter),
        ) && forall|case: bool, e: Facts| #[trigger]
            q.holds(case, e) == time_within(
                if c == 'm' {
                    e.modified_ms
                } else if c == 'c' {
                    e.created_ms
                } else {
                    e.accessed_ms
                },
                filter,
            )),
{
    reveal_strlit("dm:");
    reveal_strlit("dc:");
    reveal_strlit("da:");
    reveal_strlit("ext:");
    reveal_strlit("size:");
    let d = seq!['d', c, ':'];
    lemma_no_kind(w, 2);
    lemma_prefix(d, v);
    lemma_no_prefix(w, "ext:"@, 0);
    lemma_no_prefix(w, "size:"@, 0);
    if c == 'm' {
        assert("dm:"@ =~= d);
    } else if c == 'c' {
        assert("dc:"@ =~= d);
        lemma_no_prefix(w, "dm:"@, 1);
    } else {
        assert("da:"@ =~= d);
        lemma_no_prefix(w, "dm:"@, 1);
        lemma_no_prefix(w, "dc:"@, 1);
    }
}

/// `dm:`, `dc:` and `da:` test the modification, the creation and the access time, and
/// nothing else: an entry is accepted exactly when that time is known and lies within the
/// bounds of a filter that the clock makes of the value. The query constrains nothing
/// only where the clock makes no filter of the value.
pub proof fn law_date_word(m: Matcher, opts: SearchOptions, c: char, v: Seq<char>)
    requires
        c == 'm' || c == 'c' || c == 'a',
        v.len() > 0,
        matches_word(m, opts, seq!['d', c, ':'] + v),
    ensures
        m.clauses@.len() == 0 ==> dates::filter_read(v, None),
        m.clauses@.len() > 0 ==> exists|f: DateFilter| #[trigger]
            dates::filter_read(v, Some(f)) && forall|e: Facts| #[trigger]
                m.accepts(e) == time_within(
                    if c == 'm' {
                        e.modified_ms
                    } else if c == 'c' {
                        e.created_ms
                    } else {
                        e.accessed_ms
                    },
                    f,
                ),
        forall|a: Facts, b: Facts|
            #![trigger m.accepts(a), m.accepts(b)]
            (c == 'm' ==> a.modified_ms == b.modified_ms) && (c == 'c' ==> a.created_ms
                == b.created_ms) && (c == 'a' ==> a.accessed_ms == b.accessed_ms) ==> m.accepts(a)
                == m.accepts(b),
{
    let p = lemma_test(m, opts);
    lemma_date_word(opts.query@, opts, c, v, p);
}

/// What a bare value says: the operator that it starts with, or a range.
pub proof fn law_date_operators(x: Seq<char>, y: Seq<char>)
    requires
        text::trimmed(x) == x && text::trimmed(y) == y,
        x.len() > 0 && y.len() > 0,
        forall|i: int| 0 <= i < x.len() ==> #[trigger] x[i] != '.',
        x[0] != '=' && x[0] != '<' && x[0] != '>',
    ensures
        dates::date_expr(x) == Some(dates::DateExpr::Single(dates::DateOp::On, x)),
        dates::date_expr(seq!['='] + x) == Some(dates::DateExpr::Single(dates::DateOp::On, x)),
        dates::date_expr(seq!['>'] + x) == Some(dates::DateExpr::Single(dates::DateOp::After, x)),
        dates::date_expr(seq!['>', '='] + x) == Some(
            dates::DateExpr::Single(dates::DateOp::From, x),
        ),
        dates::date_expr(seq!['<'] + x) == Some(dates::DateExpr::Single(dates::DateOp::Before, x)),
        dates::date_expr(seq!['<', '='] + x) == Some(
            dates::DateExpr::Single(dates::DateOp::Until, x),
        ),
        dates::date_expr(x + seq!['.', '.'] + y) == Some(dates::DateExpr::Range(x, y)),
{
    reveal_strlit(">=");
    reveal_strlit("<=");
    reveal_strlit(">");
    reveal_strlit("<");
    reveal_strlit("=");
    lemma_ends(x);
    lemma_ends(y);
    lemma_no_dots(x);
    let none = Seq::<char>::empty();
    assert(none + x =~= x);
    lemma_with_op(none, x);
    lemma_with_op(seq!['='], x);
    lemma_with_op(seq!['>'], x);
    lemma_with_op(seq!['>', '='], x);
    lemma_with_op(seq!['<'], x);
    lemma_with_op(seq!['<', '='], x);
    assert(">="@ =~= seq!['>', '=']);
    assert("<="@ =~= seq!['<', '=']);
    assert(">"@ =~= seq!['>']);
    assert("<"@ =~= seq!['<']);
    assert("="@ =~= seq!['=']);
    lemma_op_of(x);
    let s = x + seq!['.', '.'] + y;
    assert(s =~= x + (seq!['.', '.'] + y));
    lemma_dots(x, y);
    assert(s[0] == x[0] && s[s.len() - 1] == y[y.len() - 1]);
    lemma_stands(s);
    assert(s.take(x.len() as int) =~= x);
    assert(s.skip(x.len() as int + 2) =~= y);
}

/// A trimmed text starts and ends with no white space.
proof fn lemma_ends(s: Seq<char>)
    requires
        text::trimmed(s) == s,
        s.len() > 0,
    ensures
        !text::is_space(s[0]),
        !text::is_space(s[s.len() - 1]),
{
    lemma_start_len(s);
    let t = text::trimmed_start(s);
    lemma_end_len(t);
    if text::is_space(s[0]) {
        lemma_start_len(s.drop_first());
    }
    if text::is_space(s.last()) {
        assert(t == s);
        lemma_end_len(s.drop_last());
    }
}

proof fn lemma_start_len(s: Seq<char>)
    ensures
        text::trimmed_start(s).len() <= s.len(),
        text::trimmed_start(s).len() == s.len() ==> text::trimmed_start(s) == s,
    decreases s.len(),
{
    if s.len() > 0 && text::is_space(s[0]) {
        lemma_start_len(s.drop_first());
    }
}

proof fn lemma_end_len(s: Seq<char>)
    ensures
        text::trimmed_end(s).len() <= s.len(),
        text::trimmed_end(s).len() == s.len() ==> text::trimmed_end(s) == s,
    decreases s.len(),
{
    if s.len() > 0 && text::is_space(s.last()) {
        lemma_end_len(s.drop_last());
    }
}

/// A text that starts and ends with no white space stands as it is.
proof fn lemma_stands(s: Seq<char>)
    requires
        s.len() > 0,
        !text::is_space(s[0]),
        !text::is_space(s[s.len() - 1]),
    ensures
        text::trimmed(s) == s,
{
}

proof fn lemma_no_dots(s: Seq<char>)
    requires
        forall|i: int| 0 <= i < s.len() ==> #[trigger] s[i] != '.',
    ensures
        dates::until_dots(s) == s.len(),
    decreases s.len(),
{
    if s.len() > 0 {
        let t = s.drop_first();
        assert forall|i: int| 0 <= i < t.len() implies #[trigger] t[i] != '.' by {
            assert(t[i] == s[i + 1]);
        }
        assert(s[0] != '.');
        lemma_no_dots(t);
    }
}

proof fn lemma_dots(x: Seq<char>, y: Seq<char>)
    requires
        forall|i: int| 0 <= i < x.len() ==> #[trigger] x[i] != '.',
    ensures
        dates::until_dots(x + (seq!['.', '.'] + y)) == x.len(),
    decreases x.len(),
{
    let s = x + (seq!['.', '.'] + y);
    if x.len() == 0 {
        assert(s[0] == '.' && s[1] == '.');
    } else {
        let t = x.drop_first();
        assert forall|i: int| 0 <= i < t.len() implies #[trigger] t[i] != '.' by {
            assert(t[i] == x[i + 1]);
        }
        assert(s[0] == x[0] && x[0] != '.');
        assert(s.drop_first() =~= t + (seq!['.', '.'] + y));
        lemma_dots(t, y);
    }
}

/// A value with an operator is a single date.
proof fn lemma_with_op(op: Seq<char>, x: Seq<char>)
    requires
        x.len() > 0,
        !text::is_space(x[0]),
        !text::is_space(x[x.len() - 1]),
        forall|i: int| 0 <= i < x.len() ==> #[trigger] x[i] != '.',
        forall|i: int| 0 <= i < op.len() ==> #[trigger] op[i] == '=' || op[i] == '<' || op[i] == '>',
    ensures
        dates::date_expr(op + x) == Some(
            dates::DateExpr::Single(dates::date_op(op + x).0, dates::date_op(op + x).1),
        ),
{
    let s = op + x;
    assert(s[s.len() - 1] == x[x.len() - 1]);
    assert(s[0] == if op.len() > 0 {
        op[0]
    } else {
        x[0]
    });
    lemma_stands(s);
    assert forall|i: int| 0 <= i < s.len() implies #[trigger] s[i] != '.' by {
        if i < op.len() {
            assert(s[i] == op[i]);
        } else {
            assert(s[i] == x[i - op.len()]);
        }
    }
    lemma_no_dots(s);
}

proof fn lemma_op_of(x: Seq<char>)
    requires
        x.len() > 0,
        x[0] != '=' && x[0] != '<' && x[0] != '>',
    ensures
        dates::date_op(x) == (dates::DateOp::On, x),
        dates::date_op(seq!['='] + x) == (dates::DateOp::On, x),
        dates::date_op(seq!['>'] + x) == (dates::DateOp::After, x),
        dates::date_op(seq!['>', '='] + x) == (dates::DateOp::From, x),
        dates::date_op(seq!['<'] + x) == (dates::DateOp::Before, x),
        dates::date_op(seq!['<', '='] + x) == (dates::DateOp::Until, x),
{
    reveal_strlit(">=");
    reveal_strlit("<=");
    reveal_strlit(">");
    reveal_strlit("<");
    reveal_strlit("=");
    let (ge, le, gt, lt, eq) = (seq!['>', '='], seq!['<', '='], seq!['>'], seq!['<'], seq!['=']);
    assert(">="@ =~= ge && "<="@ =~= le && ">"@ =~= gt && "<"@ =~= lt && "="@ =~= eq);
    lemma_prefix(ge, x);
    lemma_prefix(le, x);
    lemma_prefix(gt, x);
    lemma_prefix(lt, x);
    lemma_prefix(eq, x);
    lemma_no_prefix(x, ge, 0);
    lemma_no_prefix(x, le, 0);
    lemma_no_prefix(x, gt, 0);
    lemma_no_prefix(x, lt, 0);
    lemma_no_prefix(x, eq, 0);
    lemma_no_prefix(le + x, ge, 0);
    lemma_no_prefix(gt + x, ge, 1);
    lemma_no_prefix(gt + x, le, 0);
    lemma_no_prefix(lt + x, ge, 0);
    lemma_no_prefix(lt + x, le, 1);
    lemma_no_prefix(lt + x, gt, 0);
    lemma_no_prefix(eq + x, ge, 0);
    lemma_no_prefix(eq + x, le, 0);
    lemma_no_prefix(eq + x, gt, 0);
    lemma_no_prefix(eq + x, lt, 0);
}

/// `size:` tests the size of files: an entry is accepted exactly when it is a file whose
/// size, or 0 when that is unknown, lies within the bounds of the value.
pub proof fn law_size_word(m: Matcher, opts: SearchOptions, v: Seq<char>)
    requires
        v.len() > 0,
        matches_word(m, opts, seq!['s', 'i', 'z', 'e', ':'] + v),
    ensures
        size::size_filter(v) is None <==> m.clauses@.len() == 0,
        size::size_filter(v) matches Some(f) ==> forall|e: Facts| #[trigger]
            m.accepts(e) == (!e.is_dir && ({
                let n = match e.size {
                    Some(n) => n as int,
                    None => 0,
                };
                (f.min matches Some(a) ==> a <= n) && (f.max matches Some(b) ==> n <= b)
            })),
{
    reveal_strlit("ext:");
    reveal_strlit("size:");
    let w = opts.query@;
    let d = seq!['s', 'i', 'z', 'e', ':'];
    let p = lemma_test(m, opts);
    lemma_no_kind(w, 4);
    lemma_prefix(d, v);
    assert("size:"@ =~= d);
    lemma_no_prefix(w, "ext:"@, 0);
}

/// Whether a text is a stem, a dot and `x`.
pub open spec fn dotted(name: Seq<char>, x: Seq<char>) -> bool {
    exists|k: int|
        0 <= k < name.len() && #[trigger] name[k] == '.' && name.skip(k + 1) == x
}

proof fn lemma_dotted(name: Seq<char>, x: Seq<char>)
    requires
        forall|i: int| 0 <= i < x.len() ==> #[trigger] x[i] != '.',
    ensures
        dotted(name, x) <==> search::after_last_dot(name) == Some(x),
    decreases name.len(),
{
    if name.len() > 0 {
        let front = name.drop_last();
        let last = name.last();
        if last == '.' {
            if x.len() == 0 {
                let k = name.len() - 1;
                assert(name.skip(k + 1) =~= x);
                assert(name[k] == '.');
                assert(x =~= Seq::empty());
            } else if dotted(name, x) {
                let k = choose|k: int|
                    0 <= k < name.len() && #[trigger] name[k] == '.' && name.skip(k + 1) == x;
                assert(x.len() == name.len() - k - 1);
                assert(name.skip(k + 1)[x.len() - 1] == name[name.len() - 1]);
                assert(x[x.len() - 1] == '.');
            }
        } else {
            if dotted(name, x) {
                let k = choose|k: int|
                    0 <= k < name.len() && #[trigger] name[k] == '.' && name.skip(k + 1) == x;
                assert(k < name.len() - 1);
                let y = x.drop_last();
                assert(name.skip(k + 1).drop_last() =~= front.skip(k + 1));
                assert(name.skip(k + 1).last() == last);
                assert(front[k] == '.');
                assert forall|i: int| 0 <= i < y.len() implies #[trigger] y[i] != '.' by {
                    assert(y[i] == x[i]);
                }
                assert(dotted(front, y));
                lemma_dotted(front, y);
                assert(y.push(last) =~= x);
            }
            if search::after_last_dot(name) == Some(x) {
                let y = search::after_last_dot(front)->0;
                assert(x == y.push(last));
                assert forall|i: int| 0 <= i < y.len() implies #[trigger] y[i] != '.' by {
                    assert(y[i] == x[i]);
                }
                lemma_dotted(front, y);
                let k = choose|k: int|
                    0 <= k < front.len() && #[trigger] front[k] == '.' && front.skip(k + 1) == y;
                assert(name[k] == '.');
                assert(name.skip(k + 1) =~= x);
            }
        }
    }
}

/// Whether a text holds no dot and nothing that parts extensions.
pub open spec fn one_ext(x: Seq<char>) -> bool {
    x.len() > 0 && forall|i: int|
        0 <= i < x.len() ==> (#[trigger] x[i]) != '.' && x[i] != ';' && x[i] != ','
}

proof fn lemma_exts(x: Seq<char>, cur: Seq<char>, rest: Seq<char>)
    requires
        forall|i: int| 0 <= i < x.len() ==> (#[trigger] x[i]) != ';' && x[i] != ',',
    ensures
        search::exts_from(x + rest, cur) == search::exts_from(rest, cur + x),
    decreases x.len(),
{
    if x.len() == 0 {
        assert(x + rest =~= rest);
        assert(cur + x =~= cur);
    } else {
        let t = x.drop_first();
        assert((x + rest)[0] == x[0]);
        assert((x + rest).drop_first() =~= t + rest);
        assert forall|i: int| 0 <= i < t.len() implies (#[trigger] t[i]) != ';' && t[i] != ',' by {
            assert(t[i] == x[i + 1]);
        }
        lemma_exts(t, cur.push(x[0]), rest);
        assert(cur.push(x[0]) + t =~= cur + x);
    }
}

proof fn lemma_lower_ext(x: Seq<char>)
    requires
        one_ext(x),
    ensures
        text::ascii_lowered(x).len() == x.len(),
        forall|i: int|
            0 <= i < x.len() ==> #[trigger] text::ascii_lowered(x)[i] != '.',
{
    assert forall|i: int| 0 <= i < x.len() implies #[trigger] text::ascii_lowered(x)[i] != '.' by {
        assert(x[i] != '.');
        assert(text::ascii_lowered(x)[i] == text::ascii_lower(x[i]));
    }
}

proof fn lemma_ext_word(w: Seq<char>, v: Seq<char>)
    requires
        w == seq!['e', 'x', 't', ':'] + v,
        v.len() > 0,
    ensures
        !search::asks_file(w) && !search::asks_folder(w),
        text::has_prefix(w, "ext:"@),
        w.skip(4) == v,
{
    reveal_strlit("ext:");
    lemma_no_kind(w, 3);
    lemma_prefix(seq!['e', 'x', 't', ':'], v);
    assert("ext:"@ =~= seq!['e', 'x', 't', ':']);
}

/// `ext:x` accepts exactly the entries whose lowercase name is a stem, a dot and the
/// lowercase of `x`; with several extensions, parted by `;` or `,`, one of them has to
/// be it.
pub proof fn law_ext_word(
    m: Matcher,
    opts: SearchOptions,
    x: Seq<char>,
    y: Seq<char>,
    part: char,
    both: Matcher,
    more: SearchOptions,
)
    requires
        one_ext(x),
        one_ext(y),
        part == ';' || part == ',',
        matches_word(m, opts, seq!['e', 'x', 't', ':'] + x),
        matches_word(both, more, seq!['e', 'x', 't', ':'] + (x + (seq![part] + y))),
    ensures
        m.clauses@.len() > 0,
        forall|e: Facts| #[trigger]
            m.accepts(e) == dotted(e.name_lower, text::ascii_lowered(x)),
        forall|e: Facts| #[trigger]
            both.accepts(e) == (dotted(e.name_lower, text::ascii_lowered(x)) || dotted(
                e.name_lower,
                text::ascii_lowered(y),
            )),
{
    let none = Seq::<char>::empty();
    let p = lemma_test(m, opts);
    let q = lemma_test(both, more);
    let xy = x + (seq![part] + y);
    lemma_ext_word(opts.query@, x);
    lemma_ext_word(more.query@, xy);
    let (lx, ly) = (text::ascii_lowered(x), text::ascii_lowered(y));
    lemma_lower_ext(x);
    lemma_lower_ext(y);
    lemma_exts(x, none, none);
    assert(x + none =~= x && none + x =~= x);
    assert(search::exts_from(x, none) == seq![lx]);
    lemma_exts(x, none, seq![part] + y);
    lemma_exts(y, none, none);
    assert(y + none =~= y && none + y =~= y);
    assert((seq![part] + y).drop_first() =~= y);
    assert(search::exts_from(xy, none) =~= seq![lx, ly]);
    assert forall|e: Facts| #[trigger] m.accepts(e) == dotted(e.name_lower, lx) by {
        lemma_dotted(e.name_lower, lx);
        lemma_on_list(e.name_lower, seq![lx]);
    }
    assert forall|e: Facts| #[trigger]
        both.accepts(e) == (dotted(e.name_lower, lx) || dotted(e.name_lower, ly)) by {
        lemma_dotted(e.name_lower, lx);
        lemma_dotted(e.name_lower, ly);
        lemma_on_list(e.name_lower, seq![lx, ly]);
    }
}

proof fn lemma_on_list(name: Seq<char>, list: Seq<Seq<char>>)
    requires
        1 <= list.len() <= 2,
    ensures
        search::has_ext(name, list) <==> (search::after_last_dot(name) == Some(list[0]) || (
        list.len() == 2 && search::after_last_dot(name) == Some(list[1]))),
{
    if search::has_ext(name, list) {
        let x = search::after_last_dot(name)->0;
        let i = choose|i: int| 0 <= i < list.len() && list[i] == x;
        assert(i == 0 || i == 1);
    }
    assert(list.contains(list[0]));
    if list.len() == 2 {
        assert(list.contains(list[1]));
    }
}

/// The letters of the attributes and their bits: read-only 0, hidden 1, system 2,
/// directory 4, archive 5, normal 7, temporary 8, sparse 9, reparse point 10, compressed
/// 11, offline 12, not indexed 13, encrypted 14, virtual 16.
pub open spec fn letter_place(c: char) -> Option<u32> {
    match c {
        'r' => Some(0),
        'h' => Some(1),
        's' => Some(2),
        'd' => Some(4),
        'a' => Some(5),
        'n' => Some(7),
        't' => Some(8),
        'p' => Some(9),
        'l' => Some(10),
        'c' => Some(11),
        'o' => Some(12),
        'i' => Some(13),
        'e' => Some(14),
        'v' => Some(16),
        _ => None,
    }
}

/// Each attribute letter stands for the bit of its attribute, in either case.
pub proof fn law_letter_bits(c: char)
    ensures
        search::attrib_bit(c) == match letter_place(c) {
            Some(k) => 1u32 << k,
            None => 0,
        },
{
    assert(1u32 << 0 == 0x1 && 1u32 << 1 == 0x2 && 1u32 << 2 == 0x4 && 1u32 << 4 == 0x10 && 1u32
        << 5 == 0x20 && 1u32 << 7 == 0x80 && 1u32 << 8 == 0x100 && 1u32 << 9 == 0x200 && 1u32 << 10
        == 0x400 && 1u32 << 11 == 0x800 && 1u32 << 12 == 0x1000 && 1u32 << 13 == 0x2000 && 1u32
        << 14 == 0x4000 && 1u32 << 16 == 0x1_0000) by (bit_vector);
}

/// `attrib:` accepts exactly the entries that have the attribute of every letter, in
/// either case; letters without an attribute are passed over, and a value of such
/// letters alone constrains nothing.
pub proof fn law_attrib_word(m: Matcher, opts: SearchOptions, v: Seq<char>)
    requires
        v.len() > 0,
        matches_word(m, opts, seq!['a', 't', 't', 'r', 'i', 'b', ':'] + v),
    ensures
        m.clauses@.len() > 0 ==> forall|e: Facts| #[trigger]
            m.accepts(e) <==> (forall|i: int|
                0 <= i < v.len() ==> {
                    let place = letter_place(text::ascii_lower(#[trigger] v[i]));
                    place matches Some(k) ==> e.attributes & (1u32 << k) != 0
                }),
        m.clauses@.len() == 0 ==> forall|i: int|
            0 <= i < v.len() ==> letter_place(text::ascii_lower(#[trigger] v[i])) is None,
{
    reveal_strlit("dm:");
    reveal_strlit("dc:");
    reveal_strlit("da:");
    reveal_strlit("ext:");
    reveal_strlit("size:");
    reveal_strlit("attrib:");
    let w = opts.query@;
    let d = seq!['a', 't', 't', 'r', 'i', 'b', ':'];
    let p = lemma_test(m, opts);
    lemma_no_kind(w, 6);
    lemma_prefix(d, v);
    assert("attrib:"@ =~= d);
    lemma_no_prefix(w, "ext:"@, 0);
    lemma_no_prefix(w, "size:"@, 0);
    lemma_no_prefix(w, "dm:"@, 0);
    lemma_no_prefix(w, "dc:"@, 0);
    lemma_no_prefix(w, "da:"@, 0);
    if p is Some {
        assert forall|e: Facts| #[trigger]
            m.accepts(e) <==> (forall|i: int|
                0 <= i < v.len() ==> {
                    let place = letter_place(text::ascii_lower(#[trigger] v[i]));
                    place matches Some(k) ==> e.attributes & (1u32 << k) != 0
                }) by {
            search::law_attrib(v, opts.match_case, e);
            assert forall|i: int| 0 <= i < v.len() implies ({
                let bit = search::attrib_bit(text::ascii_lower(#[trigger] v[i]));
                let place = letter_place(text::ascii_lower(v[i]));
                e.attributes & bit == bit <==> (place matches Some(k) ==> e.attributes & (1u32 << k)
                    != 0)
            }) by {
                lemma_letter_set(text::ascii_lower(v[i]), e.attributes);
            }
            if m.accepts(e) {
                assert forall|i: int| 0 <= i < v.len() implies ({
                    let place = letter_place(text::ascii_lower(#[trigger] v[i]));
                    place matches Some(k) ==> e.attributes & (1u32 << k) != 0
                }) by {
                    let bit = search::attrib_bit(text::ascii_lower(v[i]));
                    assert(e.attributes & bit == bit);
                }
            } else {
                let i = choose|i: int|
                    0 <= i < v.len() && {
                        let bit = search::attrib_bit(text::ascii_lower(#[trigger] v[i]));
                        e.attributes & bit != bit
                    };
                assert(!({
                    let place = letter_place(text::ascii_lower(v[i]));
                    place matches Some(k) ==> e.attributes & (1u32 << k) != 0
                }));
            }
        }
    } else {
        assert forall|i: int| 0 <= i < v.len() implies letter_place(
            text::ascii_lower(#[trigger] v[i]),
        ) is None by {
            lemma_no_mask(v, i);
            law_letter_bits(text::ascii_lower(v[i]));
            let c = text::ascii_lower(v[i]);
            if letter_place(c) is Some {
                lemma_letter_set(c, 0);
                let bit = search::attrib_bit(c);
                assert(0u32 & bit == 0) by (bit_vector);
            }
        }
    }
}

proof fn lemma_letter_set(c: char, a: u32)
    ensures
        ({
            let bit = search::attrib_bit(c);
            a & bit == bit <==> (letter_place(c) matches Some(k) ==> a & (1u32 << k) != 0)
        }),
        letter_place(c) matches Some(k) ==> search::attrib_bit(c) != 0,
{
    law_letter_bits(c);
    match letter_place(c) {
        Some(k) => {
            assert(k < 32);
            assert(a & (1u32 << k) == (1u32 << k) <==> a & (1u32 << k) != 0) by (bit_vector)
                requires
                    k < 32,
            ;
            assert(1u32 << k != 0) by (bit_vector)
                requires
                    k < 32,
            ;
        },
        None => {
            assert(a & 0 == 0) by (bit_vector);
        },
    }
}

proof fn lemma_no_mask(v: Seq<char>, i: int)
    requires
        search::attrib_mask(v) == 0,
        0 <= i < v.len(),
    ensures
        search::attrib_bit(text::ascii_lower(v[i])) == 0,
    decreases v.len(),
{
    let m = search::attrib_mask(v.drop_last());
    let b = search::attrib_bit(text::ascii_lower(v.last()));
    assert(m | b == 0 ==> m == 0 && b == 0) by (bit_vector);
    if i < v.len() - 1 {
        lemma_no_mask(v.drop_last(), i);
    }
}

/// Whether a text is one of two words up to ASCII case.
pub open spec fn says(w: Seq<char>, a: Seq<char>) -> bool {
    w.len() == a.len() && forall|i: int|
        0 <= i < w.len() ==> #[trigger] text::ascii_lower(w[i]) == a[i]
}

proof fn lemma_says(w: Seq<char>, a: Seq<char>)
    requires
        says(w, a),
        forall|i: int| 0 <= i < a.len() ==> ('a' <= #[trigger] a[i] <= 'z') || a[i] == ':',
    ensures
        search::same_folded(w, a),
{
    assert forall|i: int| 0 <= i < a.len() implies text::ascii_lower(#[trigger] a[i]) == a[i] by {}
    assert forall|i: int| 0 <= i < a.len() implies text::ascii_lowered(w)[i]
        == text::ascii_lowered(a)[i] by {
        assert(text::ascii_lower(w[i]) == a[i]);
        assert(text::ascii_lower(a[i]) == a[i]);
    }
    assert(text::ascii_lowered(w) =~= text::ascii_lowered(a));
}

/// `file:` and `files:` accept exactly the files, `folder:`, `folders:` and `dir:`
/// exactly the folders, in any letter case.
pub proof fn law_kind_words(m: Matcher, opts: SearchOptions)
    requires
        matches_word(m, opts, opts.query@),
    ensures
        says(opts.query@, seq!['f', 'i', 'l', 'e', ':']) || says(
            opts.query@,
            seq!['f', 'i', 'l', 'e', 's', ':'],
        ) ==> m.clauses@.len() > 0 && forall|e: Facts| #[trigger] m.accepts(e) == !e.is_dir,
        says(opts.query@, seq!['f', 'o', 'l', 'd', 'e', 'r', ':']) || says(
            opts.query@,
            seq!['f', 'o', 'l', 'd', 'e', 'r', 's', ':'],
        ) || says(opts.query@, seq!['d', 'i', 'r', ':']) ==> m.clauses@.len() > 0 && forall|
            e: Facts,
        | #[trigger] m.accepts(e) == e.is_dir,
{
    reveal_strlit("file:");
    reveal_strlit("files:");
    reveal_strlit("folder:");
    reveal_strlit("folders:");
    reveal_strlit("dir:");
    let w = opts.query@;
    let p = lemma_test(m, opts);
    let (a, b) = (seq!['f', 'i', 'l', 'e', ':'], seq!['f', 'i', 'l', 'e', 's', ':']);
    let (c, d) = (
        seq!['f', 'o', 'l', 'd', 'e', 'r', ':'],
        seq!['f', 'o', 'l', 'd', 'e', 'r', 's', ':'],
    );
    let f = seq!['d', 'i', 'r', ':'];
    assert("file:"@ =~= a && "files:"@ =~= b && "folder:"@ =~= c && "folders:"@ =~= d && "dir:"@
        =~= f);
    if says(w, a) {
        lemma_says(w, a);
    }
    if says(w, b) {
        lemma_says(w, b);
    }
    if says(w, c) || says(w, d) {
        if says(w, c) {
            lemma_says(w, c);
            assert(text::ascii_lower(w[1]) == c[1]);
        } else {
            lemma_says(w, d);
            assert(text::ascii_lower(w[1]) == d[1]);
        }
        lemma_not_folded(w, a, 1);
        lemma_not_folded(w, b, 1);
    }
    if says(w, f) {
        lemma_says(w, f);
        assert(text::ascii_lower(w[0]) == f[0]);
        lemma_not_folded(w, a, 0);
        lemma_not_folded(w, b, 0);
    }
}

/// Whether `needle` stands in `hay` from the place `at` on.
pub open spec fn stands_at(hay: Seq<char>, needle: Seq<char>, at: int) -> bool {
    0 <= at && at + needle.len() <= hay.len() && forall|k: int|
        0 <= k < needle.len() ==> #[trigger] hay[at + k] == needle[k]
}

/// A text holds another exactly when that stands somewhere in it, character by
/// character.
pub proof fn law_has_text(hay: Seq<char>, needle: Seq<char>)
    ensures
        text::has_text(hay, needle) <==> exists|at: int| stands_at(hay, needle, at),
{
    if text::has_text(hay, needle) {
        let at = choose|at: int| text::occurs_at(hay, needle, at);
        let s = hay.subrange(at, at + needle.len());
        assert forall|k: int| 0 <= k < needle.len() implies #[trigger] hay[at + k] == needle[k] by {
            assert(s[k] == hay[at + k]);
        }
        assert(stands_at(hay, needle, at));
    }
    if exists|at: int| stands_at(hay, needle, at) {
        let at = choose|at: int| stands_at(hay, needle, at);
        assert(hay.subrange(at, at + needle.len()) =~= needle) by {
            assert forall|k: int| 0 <= k < needle.len() implies hay.subrange(
                at,
                at + needle.len(),
            )[k] == needle[k] by {
                assert(hay[at + k] == needle[k]);
            }
        }
        assert(text::occurs_at(hay, needle, at));
    }
}

/// What a text test accepts: the text as it is or the pattern, held against the name or
/// the path.
pub open spec fn text_accepts(
    s: Seq<char>,
    on_path: bool,
    opts: SearchOptions,
    e: Facts,
) -> bool {
    let plain = if on_path {
        e.path
    } else {
        e.name
    };
    let lower = if on_path {
        e.path_lower
    } else {
        e.name_lower
    };
    if s.contains('*') || s.contains('?') {
        pattern::regex_matches(pattern::globbed(s), !opts.match_case, plain)
    } else if opts.whole_word {
        pattern::regex_matches(pattern::bounded(s), !opts.match_case, plain)
    } else if opts.match_case {
        text::has_text(plain, s)
    } else {
        text::has_text(lower, text::lower(s))
    }
}

/// `path:` holds its text against the path, whatever the search is set to; wildcards
/// match the whole path.
pub proof fn law_path_word(m: Matcher, opts: SearchOptions, v: Seq<char>)
    requires
        v.len() > 0,
        matches_word(m, opts, seq!['p', 'a', 't', 'h', ':'] + v),
    ensures
        m.needs_path,
        m.clauses@.len() > 0 ==> forall|e: Facts| #[trigger]
            m.accepts(e) == text_accepts(v, true, opts, e),
        m.clauses@.len() == 0 ==> (v.contains('*') || v.contains('?') || opts.whole_word),
{
    reveal_strlit("dm:");
    reveal_strlit("dc:");
    reveal_strlit("da:");
    reveal_strlit("ext:");
    reveal_strlit("size:");
    reveal_strlit("attrib:");
    reveal_strlit("path:");
    let w = opts.query@;
    let d = seq!['p', 'a', 't', 'h', ':'];
    let p = lemma_test(m, opts);
    lemma_no_kind(w, 4);
    lemma_prefix(d, v);
    assert("path:"@ =~= d);
    lemma_no_prefix(w, "ext:"@, 0);
    lemma_no_prefix(w, "size:"@, 0);
    lemma_no_prefix(w, "dm:"@, 0);
    lemma_no_prefix(w, "dc:"@, 0);
    lemma_no_prefix(w, "da:"@, 0);
    lemma_no_prefix(w, "attrib:"@, 0);
    matcher_laws::lemma_word_first(w, Seq::empty());
    let preds = choose|preds: Seq<Option<PredView>>| matcher::compiled_with(m, opts, preds);
    let tokens = query::tokens_of(w);
    assert(search::token_needs_path(tokens[0], opts));
}

/// A word without a colon is a text term: it is held against the name, or against the
/// path when the search is set to that. Without wildcards and outside whole-word mode it
/// has to stand somewhere in it, up to letter case unless case matters.
pub proof fn law_plain_word(m: Matcher, opts: SearchOptions)
    requires
        matches_word(m, opts, opts.query@),
        forall|i: int| 0 <= i < opts.query@.len() ==> #[trigger] opts.query@[i] != ':',
    ensures
        m.needs_path == opts.match_path,
        m.clauses@.len() > 0 ==> forall|e: Facts| #[trigger]
            m.accepts(e) == text_accepts(opts.query@, opts.match_path, opts, e),
        m.clauses@.len() == 0 ==> (opts.query@.contains('*') || opts.query@.contains('?')
            || opts.whole_word),
{
    let w = opts.query@;
    let p = lemma_test(m, opts);
    lemma_no_colon(w);
    matcher_laws::lemma_word_first(w, Seq::empty());
    let preds = choose|preds: Seq<Option<PredView>>| matcher::compiled_with(m, opts, preds);
    let tokens = query::tokens_of(w);
    assert(tokens[0] == TokenView::Word(w));
    if opts.match_path {
        assert(search::token_needs_path(tokens[0], opts));
    }
}

proof fn lemma_no_colon(w: Seq<char>)
    requires
        forall|i: int| 0 <= i < w.len() ==> #[trigger] w[i] != ':',
    ensures
        !search::asks_file(w) && !search::asks_folder(w),
        !text::has_prefix(w, "ext:"@) && !text::has_prefix(w, "size:"@),
        !text::has_prefix(w, "dm:"@) && !text::has_prefix(w, "dc:"@) && !text::has_prefix(
            w,
            "da:"@,
        ),
        !text::has_prefix(w, "attrib:"@) && !text::has_prefix(w, "path:"@),
{
    reveal_strlit("file:");
    reveal_strlit("files:");
    reveal_strlit("folder:");
    reveal_strlit("folders:");
    reveal_strlit("dir:");
    reveal_strlit("dm:");
    reveal_strlit("dc:");
    reveal_strlit("da:");
    reveal_strlit("ext:");
    reveal_strlit("size:");
    reveal_strlit("attrib:");
    reveal_strlit("path:");
    assert forall|i: int| 0 <= i < w.len() implies text::ascii_lower(#[trigger] w[i]) != ':' by {}
    lemma_not_folded(w, "file:"@, 4);
    lemma_not_folded(w, "files:"@, 5);
    lemma_not_folded(w, "folder:"@, 6);
    lemma_not_folded(w, "folders:"@, 7);
    lemma_not_folded(w, "dir:"@, 3);
    lemma_no_prefix(w, "dm:"@, 2);
    lemma_no_prefix(w, "dc:"@, 2);
    lemma_no_prefix(w, "da:"@, 2);
    lemma_no_prefix(w, "ext:"@, 3);
    lemma_no_prefix(w, "size:"@, 4);
    lemma_no_prefix(w, "attrib:"@, 6);
    lemma_no_prefix(w, "path:"@, 4);
}

/// A query of one quoted text: its matcher looks for the text as it stands, wildcards
/// and all.
pub proof fn law_phrase(m: Matcher, opts: SearchOptions, s: Seq<char>)
    requires
        s.len() > 0,
        forall|i: int| 0 <= i < s.len() ==> #[trigger] s[i] != '"',
        opts.query@ == seq!['"'] + s + seq!['"'],
        matcher::compiled(m, opts),
    ensures
        m.clauses@.len() > 0,
        forall|e: Facts| #[trigger]
            m.accepts(e) == ({
                let plain = if opts.match_path {
                    e.path
                } else {
                    e.name
                };
                let lower = if opts.match_path {
                    e.path_lower
                } else {
                    e.name_lower
                };
                if opts.match_case {
                    text::has_text(plain, s)
                } else {
                    text::has_text(lower, text::lower(s))
                }
            }),
{
    let q = opts.query@;
    let none = Seq::<char>::empty();
    let body = q.drop_first();
    assert(body =~= s + seq!['"']);
    lemma_until_quote(s, none);
    assert(s + seq!['"'] + none =~= body);
    assert(body.take(s.len() as int) =~= s);
    assert(body.skip(s.len() as int + 1) =~= none);
    let tokens = query::tokens_of(q);
    assert(q[0] == '"');
    assert(query::until_quote(body) == s.len());
    assert(query::after_quote(body) == none);
    assert(query::lexed(none, none) =~= Seq::empty());
    assert(query::phrase_token(s) == seq![TokenView::Phrase(s)]);
    assert(query::word_token(none) =~= Seq::empty());
    assert(tokens =~= seq![TokenView::Phrase(s)]);
    let preds = choose|preds: Seq<Option<PredView>>| matcher::compiled_with(m, opts, preds);
    assert(search::token_yields(tokens[0], opts, preds[0]));
    assert(preds[0] is Some);
    assert forall|e: Facts| #[trigger] m.accepts(e) == (preds[0]->0).holds(opts.match_case, e) by {
        let v = matcher::truth(preds[0], opts.match_case, e);
        assert(matcher::truths(preds, opts.match_case, e) =~= seq![v]);
        lemma_one_phrase(s, v);
    }
}

proof fn lemma_one_phrase(s: Seq<char>, v: Option<bool>)
    ensures
        query::query_value(seq![TokenView::Phrase(s)], seq![v]) == v,
{
    let one = seq![TokenView::Phrase(s)];
    let start = seq![query::Frame::fresh()];
    reveal_with_fuel(query::run, 2);
    assert(one.drop_last() =~= Seq::empty());
    assert(query::run(start, one, seq![v]) =~= seq![query::Frame::fresh().with_term(v)]);
}

pub(crate) proof fn lemma_until_quote(s: Seq<char>, rest: Seq<char>)
    requires
        forall|i: int| 0 <= i < s.len() ==> #[trigger] s[i] != '"',
    ensures
        query::until_quote(s + seq!['"'] + rest) == s.len(),
    decreases s.len(),
{
    let t = s + seq!['"'] + rest;
    if s.len() > 0 {
        let u = s.drop_first();
        assert forall|i: int| 0 <= i < u.len() implies #[trigger] u[i] != '"' by {
            assert(u[i] == s[i + 1]);
        }
        assert(t[0] == s[0]);
        assert(t.drop_first() =~= u + seq!['"'] + rest);
        lemma_until_quote(u, rest);
    }
}

/// In regex mode the whole query is one expression, held against the name, or against the
/// path when the search is set to that, up to letter case unless case matters; a blank
/// query constrains nothing.
pub proof fn law_regex_mode(m: Matcher, opts: SearchOptions)
    requires
        matcher::compiled_regex(m, opts),
    ensures
        m.clauses@.len() == 0 <==> text::trimmed(opts.query@).len() == 0,
        text::trimmed(opts.query@).len() > 0 ==> m.needs_path == opts.match_path && forall|
            e: Facts,
        | #[trigger]
            m.accepts(e) == pattern::regex_matches(
                text::trimmed(opts.query@),
                !opts.match_case,
                if opts.match_path {
                    e.path
                } else {
                    e.name
                },
            ),
{
}

} // verus!
