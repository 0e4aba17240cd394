//! Laws of the order in which results stand.

use crate::catalog;
use crate::catalog::Catalog;
use crate::hit;
use crate::hit::{Hit, HitView, SearchResult};
use crate::index::SearchIndex;
use crate::matcher::Matcher;
use crate::order;
use crate::rank;
use crate::search;
use crate::search::{SearchOptions, SortKey};
use crate::text;
use vstd::prelude::*;

verus! {

/// The extension by which a row is sorted: in lower case, none for a folder.
pub open spec fn ext_key(h: HitView) -> Seq<char> {
    if h.is_dir {
        Seq::empty()
    } else {
        text::lower(rank::shown_ext(h.name))
    }
}

/// Whether the row `a` has more in a column than the row `b`.
pub open spec fn exceeds(column: SortKey, a: HitView, b: HitView) -> bool {
    &&& column is Name ==> text::text_lt(text::lower(b.name), text::lower(a.name))
    &&& column is Path ==> text::text_lt(text::lower(b.path), text::lower(a.path))
    &&& column is Size ==> a.size > b.size
    &&& column is Modified ==> a.modified > b.modified
    &&& column is Created ==> a.created > b.created
    &&& column is Accessed ==> a.accessed > b.accessed
    &&& column is Ext ==> text::text_lt(ext_key(b), ext_key(a))
    &&& column is Attributes ==> a.attributes > b.attributes
}

/// Whether the row `a` may stand above the row `b`: a folder above a file when folders
/// come first; else the one with less in the column above in ascending order, and the one
/// with more in descending order.
pub open spec fn may_stand_above(opts: SearchOptions, a: HitView, b: HitView) -> bool {
    if opts.folders_first && a.is_dir != b.is_dir {
        a.is_dir
    } else if opts.ascending {
        !exceeds(opts.sort, a, b)
    } else {
        !exceeds(opts.sort, b, a)
    }
}

/// Of two rows of a response the upper one may stand above the lower one.
#[verifier::rlimit(40)]
pub proof fn law_results_ordered(
    c: Catalog,
    opts: SearchOptions,
    m: Matcher,
    r: SearchResult,
    i: int,
    j: int,
)
    requires
        c.wf(),
        c.answered(opts, m, r),
        opts.sort is Ext && c.volumes@.len() == 1 ==> catalog::exts_fold(c.volumes@[0]),
        0 <= i < j < r.hits@.len(),
    ensures
        may_stand_above(opts, r.hits@[i]@, r.hits@[j]@),
{
    let parts = choose|parts: Seq<SearchResult>| #[trigger]
        c.parts_of(opts, m, parts) && if parts.len() == 1 {
            r.total == parts[0].total && r.hits@ == parts[0].hits@
        } else {
            catalog::merged(parts, opts, r)
        };
    if parts.len() == 1 {
        let v = c.volumes@[0];
        assert(v.wf());
        assert(v.answered(opts, m, parts[0]));
        let places = choose|places: Seq<u32>| v.answered_with(opts, m, parts[0], places);
        let rows = v.top_rows(places, opts.limit as nat);
        assert(hit::rows(r.hits@) == rows);
        assert(hit::rows(r.hits@).len() == r.hits@.len());
        assert(hit::rows(r.hits@)[i] == r.hits@[i]@ && hit::rows(r.hits@)[j] == r.hits@[j]@);
        assert(rows[i] == v.row(places[i]) && rows[j] == v.row(places[j]));
        assert(!v.comes_before(opts, places[j], places[i]));
        assert(places.contains(places[i]) && places.contains(places[j]));
        catalog::lemma_rows_agree(v, opts, places[j], places[i]);
    } else {
        let (all, from) = choose|all: Seq<Hit>, from: Seq<int>| #[trigger]
            catalog::resorted(catalog::gathered(parts), all, opts, from) && r.hits@
                == catalog::first_of(all, opts.limit as int);
        assert(!catalog::hit_before(all[j]@, all[i]@, opts));
        assert(r.hits@[i] == all[i] && r.hits@[j] == all[j]);
    }
}

/// Rows that were sorted anew are those that were there, the upper one of two may stand
/// above the lower one, and of two that may each stand above the other the one that stood
/// above still does; in descending order without folders first the other one.
pub proof fn law_sorted_anew(
    before: Seq<Hit>,
    after: Seq<Hit>,
    opts: SearchOptions,
    from: Seq<int>,
    i: int,
    j: int,
)
    requires
        catalog::resorted(before, after, opts, from),
        0 <= i < j < after.len(),
    ensures
        after.len() == before.len(),
        after[i] == before[from[i]],
        from[i] != from[j],
        may_stand_above(opts, after[i]@, after[j]@),
        may_stand_above(opts, after[j]@, after[i]@) ==> if opts.folders_first || opts.ascending {
            from[i] < from[j]
        } else {
            from[j] < from[i]
        },
{
    assert(order::arranged(before, after, from));
    assert(!catalog::hit_before(after[j]@, after[i]@, opts));
}

/// The extension of a name is what follows its last dot, unless nothing stands before
/// that dot; a name without a dot has none.
pub proof fn law_shown_ext(stem: Seq<char>, ext: Seq<char>)
    requires
        !ext.contains('.'),
    ensures
        rank::shown_ext(ext) == Seq::<char>::empty(),
        rank::shown_ext(stem + seq!['.'] + ext) == if stem.len() > 0 {
            ext
        } else {
            Seq::empty()
        },
{
    lemma_no_dot(ext);
    lemma_last_dot(stem, ext);
}

proof fn lemma_no_dot(s: Seq<char>)
    requires
        !s.contains('.'),
    ensures
        search::after_last_dot(s) is None,
    decreases s.len(),
{
    if s.len() > 0 {
        assert(s.contains(s.last())) by {
            assert(s[s.len() - 1] == s.last());
        }
        let t = s.drop_last();
        if t.contains('.') {
            let i = choose|i: int| 0 <= i < t.len() && t[i] == '.';
            assert(s[i] == '.');
        }
        lemma_no_dot(t);
    }
}

proof fn lemma_last_dot(stem: Seq<char>, ext: Seq<char>)
    requires
        !ext.contains('.'),
    ensures
        search::after_last_dot(stem + seq!['.'] + ext) == Some(ext),
    decreases ext.len(),
{
    let s = stem + seq!['.'] + ext;
    if ext.len() == 0 {
        assert(s.last() == '.');
        assert(ext =~= Seq::empty());
    } else {
        let t = ext.drop_last();
        assert(ext[ext.len() - 1] == ext.last());
        assert(ext.contains(ext.last()));
        if t.contains('.') {
            let i = choose|i: int| 0 <= i < t.len() && t[i] == '.';
            assert(ext[i] == '.');
        }
        lemma_last_dot(stem, t);
        assert(s.drop_last() =~= stem + seq!['.'] + t);
        assert(t.push(ext.last()) =~= ext);
    }
}

/// The numbers below `n` of the entries that the query accepts.
pub open spec fn accepted_below(v: SearchIndex, m: Matcher, n: nat) -> nat
    decreases n,
{
    if n == 0 {
        0
    } else {
        accepted_below(v, m, (n - 1) as nat) + if m.accepts(v.facts((n - 1) as u32)) {
            1nat
        } else {
            0
        }
    }
}

proof fn lemma_count(v: SearchIndex, m: Matcher, n: nat, s: Set<u32>)
    requires
        n <= u32::MAX,
        forall|i: u32| #[trigger] s.contains(i) <==> i < n && m.accepts(v.facts(i)),
    ensures
        s.finite(),
        s.len() == accepted_below(v, m, n),
    decreases n,
{
    if n == 0 {
        assert(s =~= Set::empty());
    } else {
        let last = (n - 1) as u32;
        let t = s.remove(last);
        lemma_count(v, m, (n - 1) as nat, t);
        if s.contains(last) {
            assert(t.insert(last) =~= s);
        } else {
            assert(t =~= s);
        }
    }
}

/// A volume says of a query how many of its entries it accepts, however many rows it
/// hands out.
pub proof fn law_volume_total(v: SearchIndex, opts: SearchOptions, m: Matcher, r: SearchResult)
    requires
        v.wf(),
        v.answered(opts, m, r),
    ensures
        r.total == accepted_below(v, m, v.entries@.len()),
{
    let places = choose|places: Seq<u32>| v.answered_with(opts, m, r, places);
    places.unique_seq_to_set();
    assert forall|i: u32| #[trigger]
        places.to_set().contains(i) <==> i < v.entries@.len() && m.accepts(v.facts(i)) by {
        assert(places.contains(i) == places.to_set().contains(i));
    }
    lemma_count(v, m, v.entries@.len(), places.to_set());
}

/// The entries of all the volumes below `n` that the query accepts.
pub open spec fn accepted_in(c: Catalog, m: Matcher, n: nat) -> nat
    decreases n,
{
    if n == 0 {
        0
    } else {
        accepted_in(c, m, (n - 1) as nat) + accepted_below(
            c.volumes@[n - 1],
            m,
            c.volumes@[n - 1].entries@.len(),
        )
    }
}

proof fn lemma_summed(c: Catalog, opts: SearchOptions, m: Matcher, parts: Seq<SearchResult>, n: nat)
    requires
        c.wf(),
        c.parts_of(opts, m, parts),
        n <= parts.len(),
        accepted_in(c, m, n) <= usize::MAX,
    ensures
        catalog::summed(parts.take(n as int)) == accepted_in(c, m, n),
    decreases n,
{
    if n > 0 {
        let v = c.volumes@[n - 1];
        assert(v.wf());
        assert(v.answered(opts, m, parts[n - 1]));
        law_volume_total(v, opts, m, parts[n - 1]);
        lemma_summed(c, opts, m, parts, (n - 1) as nat);
        assert(parts.take(n as int).drop_last() =~= parts.take(n - 1));
        assert(parts.take(n as int).last() == parts[n - 1]);
    }
}

/// A response says how many entries of all the volumes the query accepts, as far as that
/// fits into the number.
pub proof fn law_total(c: Catalog, opts: SearchOptions, m: Matcher, r: SearchResult)
    requires
        c.wf(),
        c.answered(opts, m, r),
        accepted_in(c, m, c.volumes@.len()) <= usize::MAX,
    ensures
        r.total == accepted_in(c, m, c.volumes@.len()),
{
    let parts = choose|parts: Seq<SearchResult>| #[trigger]
        c.parts_of(opts, m, parts) && if parts.len() == 1 {
            r.total == parts[0].total && r.hits@ == parts[0].hits@
        } else {
            catalog::merged(parts, opts, r)
        };
    lemma_summed(c, opts, m, parts, parts.len());
    assert(parts.take(parts.len() as int) =~= parts);
    if parts.len() == 1 {
        assert(parts.drop_last() =~= Seq::empty());
        assert(catalog::summed(parts.drop_last()) == 0);
    }
}

/// A search fails only in regex mode and where there is an expression, and then has no
/// rows; else its rows are in order and its total is what the query accepts.
#[verifier::rlimit(40)]
pub proof fn law_search(c: Catalog, opts: SearchOptions, r: SearchResult, i: int, j: int)
    requires
        c.wf(),
        call_ensures(Catalog::search, (&c, &opts), r),
    ensures
        r.error is Some ==> opts.regex && text::trimmed(opts.query@).len() > 0 && r.hits@.len() == 0
            && r.total == 0,
        r.error is None && !(opts.sort is Ext) && 0 <= i < j < r.hits@.len() ==> may_stand_above(
            opts,
            r.hits@[i]@,
            r.hits@[j]@,
        ),
        r.error is None ==> exists|m: Matcher| #[trigger]
            catalog::compiles_to(opts, m) && (accepted_in(c, m, c.volumes@.len()) <= usize::MAX
                ==> r.total == accepted_in(c, m, c.volumes@.len())),
{
    if r.error is None {
        let m = choose|m: Matcher| #[trigger]
            catalog::compiles_to(opts, m) && c.answered(opts, m, r);
        if !(opts.sort is Ext) && 0 <= i < j < r.hits@.len() {
            law_results_ordered(c, opts, m, r, i, j);
        }
        if accepted_in(c, m, c.volumes@.len()) <= usize::MAX {
            law_total(c, opts, m, r);
        }
    }
}

} // verus!
