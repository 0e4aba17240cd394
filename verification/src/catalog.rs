//! Aggregates one [`SearchIndex`] per volume into a single searchable catalog.
//! Each volume keeps its own MFT record numbering and path root; searches fan
//! out across volumes and merge into one globally-ranked result set.

use crate::entry::FileEntry;
use crate::hit;
use crate::hit::{Hit, HitView, SearchResult};
use crate::index::SearchIndex;
use crate::matcher;
use crate::matcher::Matcher;
use crate::order;
use crate::order::{par_map, signed_order, sort_by, text_order, unsigned_order};
use crate::pattern;
use crate::rank;
use crate::search::{SearchOptions, SortKey};
use crate::text;
use crate::text::lowercase;
use std::cmp::Ordering;
use std::time::Instant;
use vstd::prelude::*;

verus! {

/// A moment of the monotonic clock.
#[verifier::external_type_specification]
#[verifier::external_body]
pub struct ExInstant(std::time::Instant);

/// `Instant::now`: the current moment, which nothing else determines.
#[verifier::external_body]
fn moment() -> Instant {
    Instant::now()
}

/// `Instant::elapsed` in milliseconds: how long ago the moment was, which the clock
/// alone determines.
#[verifier::external_body]
fn elapsed_ms(start: &Instant) -> u128 {
    start.elapsed().as_millis()
}

/// Whether the clock can say that `ms` milliseconds have passed since a moment at which
/// it was asked before.
pub closed spec fn clocked(ms: u128) -> bool {
    exists|start: Instant| #[trigger]
        call_ensures(moment, (), start) && call_ensures(elapsed_ms, (&start,), ms)
}

/// All indexed volumes.
pub struct Catalog {
    pub volumes: Vec<SearchIndex>,
}

impl Default for Catalog {
    fn default() -> (r: Self)
        ensures
            r.volumes@ == Seq::<SearchIndex>::empty(),
    {
        Catalog { volumes: Vec::new() }
    }
}

impl Catalog {
    /// What every operation keeps: the volumes are sound, and no two share a drive.
    pub open spec fn wf(self) -> bool {
        &&& forall|i: int| 0 <= i < self.volumes@.len() ==> (#[trigger] self.volumes@[i]).wf()
        &&& forall|i: int, j: int|
            0 <= i < j < self.volumes@.len() ==> (#[trigger] self.volumes@[i]).drive
                != (#[trigger] self.volumes@[j]).drive
    }

    /// Whether the volume at a place is that of the drive.
    pub open spec fn is_at(self, drive: char, i: int) -> bool {
        0 <= i < self.volumes@.len() && self.volumes@[i].drive == drive
    }

    /// The place of a drive's volume, when it has one.
    fn find(&self, drive: char) -> (r: Option<usize>)
        ensures
            r matches Some(i) ==> self.is_at(drive, i as int),
            r is None ==> forall|i: int| !self.is_at(drive, i),
    {
        let mut i: usize = 0;
        while i < self.volumes.len()
            invariant
                i <= self.volumes@.len(),
                forall|k: int| 0 <= k < i ==> (#[trigger] self.volumes@[k]).drive != drive,
            decreases self.volumes@.len() - i,
        {
            if self.volumes[i].drive() == drive {
                return Some(i);
            }
            i += 1;
        }
        None
    }

    /// Insert a freshly-built volume index, replacing any prior index for the same
    /// drive.
    pub fn upsert_volume(&mut self, index: SearchIndex)
        requires
            old(self).wf(),
            index.wf(),
        ensures
            final(self).wf(),
            forall|i: int|
                old(self).is_at(index.drive, i) ==> final(self).volumes@ == old(self).volumes@.update(i, index),
            (forall|i: int| !old(self).is_at(index.drive, i)) ==> final(self).volumes@ == old(self).volumes@.push(index),
    {
        let ghost before = *self;
        let ghost drive = index.drive;
        match self.find(index.drive()) {
            Some(i) => {
                self.volumes.set(i, index);
                assert forall|k: int| before.is_at(drive, k) implies self.volumes@
                    == before.volumes@.update(k, index) by {
                    if k < i {
                        assert(before.volumes@[k].drive != before.volumes@[i as int].drive);
                    } else if i < k {
                        assert(before.volumes@[i as int].drive != before.volumes@[k].drive);
                    }
                }
            },
            None => {
                self.volumes.push(index);
                assert forall|k: int| 0 <= k < before.volumes@.len() implies (
                #[trigger] before.volumes@[k]).drive != drive by {
                    assert(!before.is_at(drive, k));
                }
            },
        }
    }

    /// Mutable access to a volume's index (used by its USN watcher).
    pub fn volume_mut(&mut self, drive: char) -> (r: Option<&mut SearchIndex>)
        ensures
            match r {
                Some(v) => exists|i: int|
                    old(self).is_at(drive, i) && *v == #[trigger] old(self).volumes@[i] && final(self).volumes@ == old(self).volumes@.update(i, *final(v)),
                None => *final(self) == *old(self) && forall|i: int| !old(self).is_at(drive, i),
            },
    {
        match self.find(drive) {
            Some(i) => Some(&mut self.volumes[i]),
            None => None,
        }
    }

    /// Shared access to a volume's index (used by the cache saver).
    pub fn volume(&self, drive: char) -> (r: Option<&SearchIndex>)
        ensures
            match r {
                Some(v) => exists|i: int|
                    self.is_at(drive, i) && *v == #[trigger] self.volumes@[i],
                None => forall|i: int| !self.is_at(drive, i),
            },
    {
        match self.find(drive) {
            Some(i) => Some(&self.volumes[i]),
            None => None,
        }
    }
}

/// The extension key of a row: the lowercase of the extension that its name shows,
/// blank for directories.
pub open spec fn hit_ext_of(h: HitView) -> Seq<char> {
    if h.is_dir {
        Seq::empty()
    } else {
        text::lower(rank::shown_ext(h.name))
    }
}

/// Whether the row `a` has the lesser key of a column.
pub open spec fn hit_lt(a: HitView, b: HitView, sort: SortKey) -> bool {
    match sort {
        SortKey::Name => text::text_lt(text::lower(a.name), text::lower(b.name)),
        SortKey::Path => text::text_lt(text::lower(a.path), text::lower(b.path)),
        SortKey::Size => a.size < b.size,
        SortKey::Modified => a.modified < b.modified,
        SortKey::Created => a.created < b.created,
        SortKey::Accessed => a.accessed < b.accessed,
        SortKey::Ext => text::text_lt(hit_ext_of(a), hit_ext_of(b)),
        SortKey::Attributes => a.attributes < b.attributes,
    }
}

/// Whether the row `a` comes before the row `b` in the results.
pub open spec fn hit_before(a: HitView, b: HitView, opts: SearchOptions) -> bool {
    rank::grouped_lt(
        a.is_dir,
        b.is_dir,
        hit_lt(a, b, opts.sort),
        hit_lt(b, a, opts.sort),
        opts.ascending,
        opts.folders_first,
    )
}

/// The order of the rows: two of them not both ways, and not coming after is
/// transitive.
pub proof fn lemma_hit_order(a: HitView, b: HitView, c: HitView, opts: SearchOptions)
    ensures
        !(hit_before(a, b, opts) && hit_before(b, a, opts)),
        !hit_before(b, a, opts) && !hit_before(c, b, opts) ==> !hit_before(c, a, opts),
{
    lemma_hit_column(a, b, c, opts.sort);
    lemma_hit_column(c, b, a, opts.sort);
}

proof fn lemma_hit_column(a: HitView, b: HitView, c: HitView, sort: SortKey)
    ensures
        !(hit_lt(a, b, sort) && hit_lt(b, a, sort)),
        !hit_lt(b, a, sort) && !hit_lt(c, b, sort) ==> !hit_lt(c, a, sort),
{
    match sort {
        SortKey::Name => {
            rank::lemma_text_order(text::lower(a.name), text::lower(b.name), text::lower(c.name));
        },
        SortKey::Path => {
            rank::lemma_text_order(text::lower(a.path), text::lower(b.path), text::lower(c.path));
        },
        SortKey::Ext => {
            rank::lemma_text_order(hit_ext_of(a), hit_ext_of(b), hit_ext_of(c));
        },
        _ => {},
    }
}

/// The extension key of a row: the lowercase of the extension that its name shows,
/// blank for directories, so that the sort agrees with what's displayed.
fn hit_ext(h: &Hit) -> (r: String)
    ensures
        r@ == hit_ext_of(h@),
{
    if h.is_dir {
        return String::new();
    }
    let ext = rank::ext_shown(h.name.as_str());
    lowercase(ext.as_str())
}

/// Compare two rows by a sort column, ascending.
fn hit_column_order(a: &Hit, b: &Hit, sort: SortKey) -> (o: Ordering)
    ensures
        order::order_agrees(o, hit_lt(a@, b@, sort), hit_lt(b@, a@, sort)),
{
    match sort {
        SortKey::Name => {
            let x = lowercase(a.name.as_str());
            let y = lowercase(b.name.as_str());
            text_order(x.as_str(), y.as_str())
        },
        SortKey::Path => {
            let x = lowercase(a.path.as_str());
            let y = lowercase(b.path.as_str());
            text_order(x.as_str(), y.as_str())
        },
        SortKey::Size => signed_order(a.size, b.size),
        SortKey::Modified => signed_order(a.modified, b.modified),
        SortKey::Created => signed_order(a.created, b.created),
        SortKey::Accessed => signed_order(a.accessed, b.accessed),
        SortKey::Ext => {
            let x = hit_ext(a);
            let y = hit_ext(b);
            text_order(x.as_str(), y.as_str())
        },
        SortKey::Attributes => unsigned_order(a.attributes, b.attributes),
    }
}

/// Whether the rows `after` are the rows `before` in the order of the results, the
/// `i`-th one from the place `from[i]`. Rows that the order leaves open keep their
/// order, except that a plain descending sort turns it round.
pub open spec fn resorted(
    before: Seq<Hit>,
    after: Seq<Hit>,
    opts: SearchOptions,
    from: Seq<int>,
) -> bool {
    &&& order::arranged(before, after, from)
    &&& forall|i: int, j: int|
        0 <= i < j < after.len() ==> !hit_before(
            (#[trigger] after[j])@,
            (#[trigger] after[i])@,
            opts,
        )
    &&& forall|i: int, j: int|
        0 <= i < j < after.len() && !hit_before(
            (#[trigger] after[i])@,
            (#[trigger] after[j])@,
            opts,
        ) ==> if opts.folders_first || opts.ascending {
            from[i] < from[j]
        } else {
            from[j] < from[i]
        }
}

/// Re-rank merged hits from multiple volumes by the requested column.
pub fn sort_hits(hits: &mut Vec<Hit>, opts: &SearchOptions)
    ensures
        exists|from: Seq<int>| resorted(old(hits)@, final(hits)@, *opts, from),
{
    let ghost before = hits@;
    let direct = opts.folders_first || opts.ascending;
    // A plain descending sort is an ascending one turned round.
    let f = |a: &Hit, b: &Hit| -> (o: Ordering)
        ensures
            order::order_agrees(
                o,
                if direct {
                    hit_before(a@, b@, *opts)
                } else {
                    hit_before(b@, a@, *opts)
                },
                if direct {
                    hit_before(b@, a@, *opts)
                } else {
                    hit_before(a@, b@, *opts)
                },
            ),
        {
            let column = hit_column_order(a, b, opts.sort);
            rank::grouped_order(
                a.is_dir,
                b.is_dir,
                column,
                opts.ascending || !direct,
                opts.folders_first,
            )
        };
    proof {
        assert forall|a: Hit, b: Hit, c: Hit, o: Ordering, p: Ordering, q: Ordering|
            before.contains(a) && before.contains(b) && before.contains(c) && #[trigger] f.ensures(
                (&a, &b),
                o,
            ) && #[trigger] f.ensures((&b, &c), p) && #[trigger] f.ensures((&a, &c), q) && !(
            o is Greater) && !(p is Greater) implies !(q is Greater) by {
            lemma_hit_order(a@, b@, c@, *opts);
            lemma_hit_order(c@, b@, a@, *opts);
        }
    }
    sort_by(hits, f);
    let ghost sorted = hits@;
    proof {
        let from = choose|from: Seq<int>|
            order::arranged(before, sorted, from) && order::order_keeps_ties(f, sorted, from);
        assert forall|i: int, j: int| 0 <= i < j < sorted.len() implies {
            let a = (#[trigger] sorted[i])@;
            let b = (#[trigger] sorted[j])@;
            &&& direct ==> !hit_before(b, a, *opts)
            &&& !direct ==> !hit_before(a, b, *opts)
            &&& direct && !hit_before(a, b, *opts) ==> from[i] < from[j]
            &&& !direct && !hit_before(b, a, *opts) ==> from[i] < from[j]
        } by {
            assert(order::order_not_after(f, sorted[i], sorted[j]));
            assert(from[i] < from[j] || order::order_before(f, sorted[i], sorted[j]));
        }
        if direct {
            assert(resorted(before, sorted, *opts, from));
        }
    }
    if !direct {
        reverse(hits);
        proof {
            let from = choose|from: Seq<int>|
                order::arranged(before, sorted, from) && order::order_keeps_ties(f, sorted, from);
            let n = sorted.len();
            let back = from.reverse();
            let after = hits@;
            assert(after == sorted.reverse());
            assert forall|i: int, j: int|
                0 <= i < back.len() && 0 <= j < back.len() && i != j implies back[i]
                != back[j] by {
                assert(from[n - 1 - i] != from[n - 1 - j]);
            }
            assert forall|i: int| 0 <= i < back.len() implies 0 <= #[trigger] back[i]
                < before.len() && after[i] == before[back[i]] by {
                assert(0 <= from[n - 1 - i] < before.len());
            }
            assert forall|i: int, j: int| 0 <= i < j < after.len() implies !hit_before(
                (#[trigger] after[j])@,
                (#[trigger] after[i])@,
                *opts,
            ) by {
                assert(after[i] == sorted[n - 1 - i] && after[j] == sorted[n - 1 - j]);
            }
            assert forall|i: int, j: int|
                0 <= i < j < after.len() && !hit_before(
                    (#[trigger] after[i])@,
                    (#[trigger] after[j])@,
                    *opts,
                ) implies back[j] < back[i] by {
                assert(after[i] == sorted[n - 1 - i] && after[j] == sorted[n - 1 - j]);
            }
            assert(resorted(before, after, *opts, back));
        }
    }
}

/// Turn the order of the rows round.
fn reverse(hits: &mut Vec<Hit>)
    ensures
        final(hits)@ == old(hits)@.reverse(),
{
    let mut out: Vec<Hit> = Vec::new();
    let ghost start = hits@;
    assert(start.take(start.len() as int) =~= start);
    while hits.len() > 0
        invariant
            hits@.len() + out@.len() == start.len(),
            hits@ == start.take(hits@.len() as int),
            forall|k: int| 0 <= k < out@.len() ==> out@[k] == start[start.len() - 1 - k],
        decreases hits@.len(),
    {
        let ghost n = hits@.len();
        match hits.pop() {
            Some(h) => {
                out.push(h);
            },
            None => {},
        }
        assert(hits@ =~= start.take(hits@.len() as int));
    }
    assert(out@ =~= start.reverse());
    *hits = out;
}

/// The sum of the totals, or the largest count when it is larger.
pub open spec fn summed(parts: Seq<SearchResult>) -> nat
    decreases parts.len(),
{
    if parts.len() == 0 {
        0
    } else {
        let sum = summed(parts.drop_last()) + parts.last().total as nat;
        if sum > usize::MAX {
            usize::MAX as nat
        } else {
            sum
        }
    }
}

/// The rows of all the parts, one part after the other.
pub open spec fn gathered(parts: Seq<SearchResult>) -> Seq<Hit>
    decreases parts.len(),
{
    if parts.len() == 0 {
        Seq::empty()
    } else {
        gathered(parts.drop_last()) + parts.last().hits@
    }
}

/// The first `limit` items.
pub open spec fn first_of<T>(s: Seq<T>, limit: int) -> Seq<T> {
    if limit < s.len() {
        s.take(limit)
    } else {
        s
    }
}

/// Whether a response merges the parts: their rows in the order of the results, cut
/// at the limit.
pub open spec fn merged(parts: Seq<SearchResult>, opts: SearchOptions, r: SearchResult) -> bool {
    &&& r.total == summed(parts)
    &&& exists|all: Seq<Hit>, from: Seq<int>| #[trigger]
        resorted(gathered(parts), all, opts, from) && r.hits@ == first_of(all, opts.limit as int)
}

/// Merge the responses of the volumes into one: their rows in the order of the
/// results, cut at the limit.
pub fn merge(parts: Vec<SearchResult>, opts: &SearchOptions) -> (r: SearchResult)
    ensures
        merged(parts@, *opts, r),
        r.took_ms == 0,
        r.error is None,
        !r.capped,
{
    let ghost shown = parts@;
    let mut parts = parts;
    let mut total: usize = 0;
    let mut hits: Vec<Hit> = Vec::new();
    let mut i: usize = 0;
    assert(hits@ =~= gathered(shown.take(0)));
    while i < parts.len()
        invariant
            i <= parts@.len(),
            parts@.len() == shown.len(),
            forall|k: int| i <= k < shown.len() ==> parts@[k] == shown[k],
            total == summed(shown.take(i as int)),
            hits@ == gathered(shown.take(i as int)),
        decreases parts@.len() - i,
    {
        assert(shown.take(i + 1).drop_last() =~= shown.take(i as int));
        assert(shown.take(i + 1).last() == shown[i as int]);
        total = total.saturating_add(parts[i].total);
        let mut more: Vec<Hit> = Vec::new();
        std::mem::swap(&mut more, &mut parts[i].hits);
        hits.append(&mut more);
        i += 1;
    }
    assert(shown.take(i as int) =~= shown);
    sort_hits(&mut hits, opts);
    let ghost all = hits@;
    hits.truncate(opts.limit);
    assert(hits@ =~= first_of(all, opts.limit as int));
    SearchResult { total, took_ms: 0, hits, error: None, capped: false }
}

/// Whether a matcher is what the options compile to.
pub open spec fn compiles_to(opts: SearchOptions, m: Matcher) -> bool {
    &&& m.honest()
    &&& if opts.regex {
        matcher::compiled_regex(m, opts)
    } else {
        matcher::compiled(m, opts)
    }
}

impl Catalog {
    /// Whether the parts are the responses of the volumes to a query.
    pub open spec fn parts_of(
        self,
        opts: SearchOptions,
        m: Matcher,
        parts: Seq<SearchResult>,
    ) -> bool {
        &&& parts.len() == self.volumes@.len()
        &&& forall|i: int|
            0 <= i < parts.len() ==> self.volumes@[i].answered(opts, m, #[trigger] parts[i])
    }

    /// Whether a response answers a query: that of the only volume, or those of all
    /// the volumes merged.
    pub open spec fn answered(self, opts: SearchOptions, m: Matcher, r: SearchResult) -> bool {
        &&& r.error is None
        &&& !r.capped
        &&& exists|parts: Seq<SearchResult>| #[trigger]
            self.parts_of(opts, m, parts) && if parts.len() == 1 {
                r.total == parts[0].total && r.hits@ == parts[0].hits@
            } else {
                merged(parts, opts, r)
            }
    }

    /// Search every volume with a compiled query.
    pub fn search_with(&self, opts: &SearchOptions, matcher: &Matcher) -> (r: SearchResult)
        requires
            self.wf(),
            matcher.honest(),
        ensures
            self.answered(*opts, *matcher, r),
            r.took_ms == 0,
    {
        if self.volumes.len() == 1 {
            assert(self.volumes@[0].wf());
            let only = self.volumes[0].search(opts, matcher);
            proof {
                let parts = seq![only];
                assert(self.parts_of(*opts, *matcher, parts));
            }
            return only;
        }
        let f = |v: &SearchIndex| -> (r: SearchResult)
            requires
                v.wf(),
            ensures
                v.answered(*opts, *matcher, r),
            { v.search(opts, matcher) };
        let parts = par_map(&self.volumes, f);
        assert forall|i: int| 0 <= i < parts@.len() implies self.volumes@[i].answered(
            *opts,
            *matcher,
            #[trigger] parts@[i],
        ) by {
            assert(f.ensures((&self.volumes@[i],), parts@[i]));
        }
        assert(self.parts_of(*opts, *matcher, parts@));
        merge(parts, opts)
    }

    /// Whether a result is one that a search gives: the merged rows that a matcher of
    /// the query accepts, or the message of a query that does not compile.
    pub open spec fn searched(self, opts: SearchOptions, r: SearchResult) -> bool {
        match r.error {
            None => exists|m: Matcher| #[trigger]
                compiles_to(opts, m) && self.answered(opts, m, r),
            Some(message) => {
                &&& opts.regex && text::trimmed(opts.query@).len() > 0
                &&& pattern::refused_saying(
                    text::trimmed(opts.query@),
                    !opts.match_case,
                    message@,
                )
                &&& r.total == 0 && r.hits@ == Seq::<Hit>::empty() && !r.capped
            },
        }
    }

    /// Search every volume and return one merged, ranked, truncated result set, or the
    /// message of a query that does not compile. How long it took depends on the clock.
    pub fn search(&self, opts: &SearchOptions) -> (r: SearchResult)
        requires
            self.wf(),
        ensures
            self.searched(*opts, r),
            clocked(r.took_ms),
    {
        let start = moment();
        let m = match Matcher::compile(opts) {
            Ok(m) => m,
            Err(e) => {
                return SearchResult::error(e, elapsed_ms(&start));
            },
        };
        let mut result = self.search_with(opts, &m);
        result.took_ms = elapsed_ms(&start);
        assert(compiles_to(*opts, m) && self.answered(*opts, m, result));
        result
    }
}

/// Whether an entry's extension folds alike on its own and within the name.
pub open spec fn ext_folds(e: FileEntry) -> bool {
    e.is_dir || rank::shown_ext(e.name_lower@) == text::lower(rank::shown_ext(e.name@))
}

/// Whether the extension of every entry of a volume folds alike on its own and within
/// the name.
pub open spec fn exts_fold(v: SearchIndex) -> bool {
    forall|i: int| 0 <= i < v.entries@.len() ==> ext_folds(#[trigger] v.entries@[i])
}

/// The rows of a volume stand in the order of their entries.
pub(crate) proof fn lemma_rows_agree(v: SearchIndex, opts: SearchOptions, i: u32, j: u32)
    requires
        v.wf(),
        i < v.entries@.len(),
        j < v.entries@.len(),
        opts.sort == SortKey::Ext ==> exts_fold(v),
    ensures
        v.comes_before(opts, i, j) == hit_before(v.row(i), v.row(j), opts),
{
    let a = crate::index::entry_at(v.entries@, i);
    let b = crate::index::entry_at(v.entries@, j);
    assert(v.entries@[i as int].name_lower@ == text::lower(a.name@));
    assert(v.entries@[j as int].name_lower@ == text::lower(b.name@));
    if opts.sort == SortKey::Ext {
        assert(ext_folds(v.entries@[i as int]) && ext_folds(v.entries@[j as int]));
    }
}

/// The rows of a part stand together among all the rows.
proof fn lemma_gathered(parts: Seq<SearchResult>, v: int, k: int)
    requires
        0 <= v < parts.len(),
        0 <= k < parts[v].hits@.len(),
    ensures
        0 <= gathered(parts.take(v)).len() + k < gathered(parts).len(),
        gathered(parts)[gathered(parts.take(v)).len() + k] == parts[v].hits@[k],
    decreases parts.len(),
{
    let front = parts.drop_last();
    if v == parts.len() - 1 {
        assert(parts.take(v) =~= front);
    } else {
        assert(front.take(v) =~= parts.take(v));
        lemma_gathered(front, v, k);
    }
}

/// An arrangement has a place for every item.
proof fn lemma_arranged_covers<T>(before: Seq<T>, after: Seq<T>, from: Seq<int>, g: int)
    requires
        order::arranged(before, after, from),
        0 <= g < before.len(),
    ensures
        exists|p: int| 0 <= p < after.len() && #[trigger] from[p] == g,
{
    let n = before.len() as int;
    let range = vstd::set_lib::set_int_range(0, n);
    vstd::set_lib::lemma_int_range(0, n);
    from.unique_seq_to_set();
    assert(from.to_set().subset_of(range)) by {
        assert forall|x: int| from.to_set().contains(x) implies range.contains(x) by {
            let p = choose|p: int| 0 <= p < from.len() && from[p] == x;
            assert(0 <= from[p] < before.len());
        }
    }
    vstd::set_lib::lemma_subset_equality(from.to_set(), range);
    assert(from.to_set().contains(g));
    let p = choose|p: int| 0 <= p < from.len() && from[p] == g;
    assert(from[p] == g);
}

/// No list of distinct numbers below `n` is longer than `n`.
proof fn lemma_distinct_below(s: Seq<int>, n: int)
    requires
        0 <= n,
        s.no_duplicates(),
        forall|i: int| 0 <= i < s.len() ==> 0 <= #[trigger] s[i] < n,
    ensures
        s.len() <= n,
{
    let range = vstd::set_lib::set_int_range(0, n);
    vstd::set_lib::lemma_int_range(0, n);
    s.unique_seq_to_set();
    assert(s.to_set().subset_of(range)) by {
        assert forall|x: int| s.to_set().contains(x) implies range.contains(x) by {
            let i = choose|i: int| 0 <= i < s.len() && s[i] == x;
            assert(0 <= s[i] < n);
        }
    }
    vstd::set_lib::lemma_len_subset(s.to_set(), range);
}

/// Whether the rows are the top of a ranking that holds the row `x`: it is among
/// them, or they are as many as asked for and it comes before none of them.
pub open spec fn tops(hits: Seq<Hit>, opts: SearchOptions, x: HitView) -> bool {
    ||| hit::rows(hits).contains(x)
    ||| hits.len() == opts.limit && forall|k: int|
        0 <= k < hits.len() ==> !hit_before(x, (#[trigger] hits[k])@, opts)
}

/// The place of an accepted entry in the ranking of its volume, and what that says
/// of the rows of the volume.
proof fn lemma_volume_rank(
    v: SearchIndex,
    opts: SearchOptions,
    m: Matcher,
    part: SearchResult,
    i: u32,
) -> (k: int)
    requires
        v.wf(),
        v.answered(opts, m, part),
        opts.sort == SortKey::Ext ==> exts_fold(v),
        i < v.entries@.len(),
        m.accepts(v.facts(i)),
    ensures
        k >= 0,
        k < opts.limit ==> k < part.hits@.len() && part.hits@[k]@ == v.row(i),
        k >= opts.limit ==> part.hits@.len() == opts.limit && forall|t: int|
            0 <= t < part.hits@.len() ==> !hit_before(v.row(i), (#[trigger] part.hits@[t])@, opts),
{
    let order = choose|order: Seq<u32>| v.answered_with(opts, m, part, order);
    assert(order.contains(i));
    let k = choose|k: int| 0 <= k < order.len() && order[k] == i;
    let rows = v.top_rows(order, opts.limit as nat);
    assert(hit::rows(part.hits@) == rows);
    assert(part.hits@.len() == rows.len());
    if k < opts.limit {
        assert(hit::rows(part.hits@)[k] == rows[k]);
    } else {
        assert forall|t: int| 0 <= t < part.hits@.len() implies !hit_before(
            v.row(i),
            (#[trigger] part.hits@[t])@,
            opts,
        ) by {
            assert(hit::rows(part.hits@)[t] == rows[t]);
            assert(order.contains(order[t]));
            assert(!v.comes_before(opts, order[k], order[t]));
            lemma_rows_agree(v, opts, order[k], order[t]);
        }
    }
    k
}

/// The result set is globally ranked: for every accepted entry of every volume, its
/// row is among the results, or the results are as many as asked for and it comes
/// before none of them. By extension a volume folds the whole name and the merge the
/// extension alone, so there the two have to agree; they do but for letters that fold
/// by what stands before them, as in `a.\u{3a3}`.
pub proof fn law_global_top(
    c: Catalog,
    opts: SearchOptions,
    m: Matcher,
    r: SearchResult,
    v: int,
    i: u32,
)
    requires
        c.wf(),
        c.answered(opts, m, r),
        0 <= v < c.volumes@.len(),
        opts.sort == SortKey::Ext ==> exts_fold(c.volumes@[v]),
        i < c.volumes@[v].entries@.len(),
        m.accepts(c.volumes@[v].facts(i)),
    ensures
        tops(r.hits@, opts, c.volumes@[v].row(i)),
{
    let parts = choose|parts: Seq<SearchResult>| #[trigger]
        c.parts_of(opts, m, parts) && if parts.len() == 1 {
            r.total == parts[0].total && r.hits@ == parts[0].hits@
        } else {
            merged(parts, opts, r)
        };
    let volume = c.volumes@[v];
    let x = volume.row(i);
    assert(volume.answered(opts, m, parts[v]));
    let k = lemma_volume_rank(volume, opts, m, parts[v], i);
    if parts.len() == 1 {
        if k < opts.limit {
            assert(hit::rows(r.hits@)[k] == x);
        }
    } else {
        lemma_merged_top(parts, opts, r, v, k, x);
    }
}

/// Whether the entry at `i` of a volume has no place among the first `limit` of it:
/// that many other accepted entries of the volume stand ahead, and it comes before none
/// of them.
pub open spec fn crowded_out(
    v: SearchIndex,
    opts: SearchOptions,
    m: Matcher,
    i: u32,
    ahead: Seq<u32>,
) -> bool {
    &&& ahead.len() == opts.limit
    &&& ahead.no_duplicates()
    &&& forall|t: int|
        0 <= t < ahead.len() ==> (#[trigger] ahead[t]) != i && ahead[t] < v.entries@.len()
            && m.accepts(v.facts(ahead[t])) && !v.comes_before(opts, i, ahead[t])
}

/// By every column, an accepted entry is among the results, or these are as many as asked
/// for and it comes before none of them, or before none of as many others of its volume by
/// the volume's own order.
pub proof fn law_left_out(
    c: Catalog,
    opts: SearchOptions,
    m: Matcher,
    r: SearchResult,
    v: int,
    i: u32,
)
    requires
        c.answered(opts, m, r),
        0 <= v < c.volumes@.len(),
        i < c.volumes@[v].entries@.len(),
        m.accepts(c.volumes@[v].facts(i)),
    ensures
        tops(r.hits@, opts, c.volumes@[v].row(i)) || (r.hits@.len() == opts.limit
            && exists|ahead: Seq<u32>| crowded_out(c.volumes@[v], opts, m, i, ahead)),
{
    let parts = choose|parts: Seq<SearchResult>| #[trigger]
        c.parts_of(opts, m, parts) && if parts.len() == 1 {
            r.total == parts[0].total && r.hits@ == parts[0].hits@
        } else {
            merged(parts, opts, r)
        };
    let volume = c.volumes@[v];
    let part = parts[v];
    let limit = opts.limit as int;
    assert(volume.answered(opts, m, part));
    let order = choose|order: Seq<u32>| volume.answered_with(opts, m, part, order);
    assert(order.contains(i));
    let k = choose|k: int| 0 <= k < order.len() && order[k] == i;
    let rows = volume.top_rows(order, opts.limit as nat);
    assert(hit::rows(part.hits@) == rows);
    assert(part.hits@.len() == rows.len());
    if k < limit {
        assert(hit::rows(part.hits@)[k] == rows[k]);
        if parts.len() == 1 {
            assert(hit::rows(r.hits@)[k] == volume.row(i));
        } else {
            lemma_merged_top(parts, opts, r, v, k, volume.row(i));
        }
    } else {
        let ahead = order.take(limit);
        assert forall|t: int| 0 <= t < ahead.len() implies (#[trigger] ahead[t]) != i && ahead[t]
            < volume.entries@.len() && m.accepts(volume.facts(ahead[t])) && !volume.comes_before(
            opts,
            i,
            ahead[t],
        ) by {
            assert(order.contains(order[t]));
            assert(!volume.comes_before(opts, order[k], order[t]));
        }
        assert(crowded_out(volume, opts, m, i, ahead));
        if parts.len() != 1 {
            let (all, from) = choose|all: Seq<Hit>, from: Seq<int>| #[trigger]
                resorted(gathered(parts), all, opts, from) && r.hits@ == first_of(all, limit);
            if limit > 0 {
                lemma_gathered(parts, v, limit - 1);
            }
            assert(all.len() >= limit);
        }
    }
}

proof fn lemma_merged_top(
    parts: Seq<SearchResult>,
    opts: SearchOptions,
    r: SearchResult,
    v: int,
    k: int,
    x: HitView,
)
    requires
        merged(parts, opts, r),
        0 <= v < parts.len(),
        0 <= k,
        k < opts.limit ==> k < parts[v].hits@.len() && parts[v].hits@[k]@ == x,
        k >= opts.limit ==> parts[v].hits@.len() == opts.limit && forall|t: int|
            0 <= t < parts[v].hits@.len() ==> !hit_before(
                x,
                (#[trigger] parts[v].hits@[t])@,
                opts,
            ),
    ensures
        tops(r.hits@, opts, x),
{
    let whole = gathered(parts);
    let (all, from) = choose|all: Seq<Hit>, from: Seq<int>| #[trigger]
        resorted(whole, all, opts, from) && r.hits@ == first_of(all, opts.limit as int);
    let base = gathered(parts.take(v)).len() as int;
    let limit = opts.limit as int;
    if k < limit {
        lemma_gathered(parts, v, k);
        lemma_arranged_covers(whole, all, from, base + k);
        let p = choose|p: int| 0 <= p < all.len() && #[trigger] from[p] == base + k;
        assert(all[p] == whole[from[p]]);
        assert(all[p]@ == x);
        if p < r.hits@.len() {
            assert(hit::rows(r.hits@)[p] == x);
        } else {
            assert forall|q: int| 0 <= q < r.hits@.len() implies !hit_before(
                x,
                (#[trigger] r.hits@[q])@,
                opts,
            ) by {
                assert(!hit_before(all[p]@, all[q]@, opts));
            }
        }
    } else {
        if limit > 0 {
            lemma_gathered(parts, v, limit - 1);
        }
        assert(all.len() >= limit);
        assert forall|q: int| 0 <= q < r.hits@.len() implies !hit_before(
            x,
            (#[trigger] r.hits@[q])@,
            opts,
        ) by {
            lemma_crowded(parts, opts, all, from, v, x, q);
        }
    }
}

/// A row that comes before none of the `limit` rows of a volume comes before none of
/// the first `limit` of all rows: those of the volume would all have to stand
/// further up.
proof fn lemma_crowded(
    parts: Seq<SearchResult>,
    opts: SearchOptions,
    all: Seq<Hit>,
    from: Seq<int>,
    v: int,
    x: HitView,
    q: int,
)
    requires
        0 <= v < parts.len(),
        parts[v].hits@.len() == opts.limit,
        forall|t: int|
            0 <= t < parts[v].hits@.len() ==> !hit_before(
                x,
                (#[trigger] parts[v].hits@[t])@,
                opts,
            ),
        resorted(gathered(parts), all, opts, from),
        0 <= q < all.len(),
        q < opts.limit,
    ensures
        !hit_before(x, all[q]@, opts),
{
    if hit_before(x, all[q]@, opts) {
        lemma_crowded_places(parts, opts, all, from, v, x, q);
    }
}

/// Where a row comes before the row at `q`, but before none of those of a volume,
/// the rows of the volume stand above `q`; so they are at most `q`.
proof fn lemma_crowded_places(
    parts: Seq<SearchResult>,
    opts: SearchOptions,
    all: Seq<Hit>,
    from: Seq<int>,
    v: int,
    x: HitView,
    q: int,
)
    requires
        0 <= v < parts.len(),
        forall|t: int|
            0 <= t < parts[v].hits@.len() ==> !hit_before(
                x,
                (#[trigger] parts[v].hits@[t])@,
                opts,
            ),
        resorted(gathered(parts), all, opts, from),
        0 <= q < all.len(),
        hit_before(x, all[q]@, opts),
    ensures
        parts[v].hits@.len() <= q,
{
    let whole = gathered(parts);
    let base = gathered(parts.take(v)).len() as int;
    let limit = parts[v].hits@.len();
    let places = Seq::new(
        limit,
        |t: int| choose|p: int| 0 <= p < all.len() && #[trigger] from[p] == base + t,
    );
    assert forall|t: int| 0 <= t < limit implies 0 <= #[trigger] places[t] < q && from[places[t]]
        == base + t by {
        lemma_gathered(parts, v, t);
        lemma_arranged_covers(whole, all, from, base + t);
        let p = choose|p: int| 0 <= p < all.len() && #[trigger] from[p] == base + t;
        assert(places[t] == p);
        assert(all[p] == whole[from[p]]);
        let y = parts[v].hits@[t]@;
        let h = all[q]@;
        assert(all[p]@ == y);
        lemma_hit_order(h, y, x, opts);
        lemma_hit_order(h, h, h, opts);
        if p > q {
            assert(!hit_before(all[p]@, all[q]@, opts));
        }
    }
    assert(places.no_duplicates()) by {
        assert forall|a: int, b: int|
            0 <= a < places.len() && 0 <= b < places.len() && a != b implies places[a]
            != places[b] by {
            assert(from[places[a]] == base + a && from[places[b]] == base + b);
        }
    }
    lemma_distinct_below(places, q);
}

/// Every row among all the rows is one of a part.
proof fn lemma_gathered_from(parts: Seq<SearchResult>, g: int) -> (r: (int, int))
    requires
        0 <= g < gathered(parts).len(),
    ensures
        0 <= r.0 < parts.len(),
        0 <= r.1 < parts[r.0].hits@.len(),
        gathered(parts)[g] == parts[r.0].hits@[r.1],
    decreases parts.len(),
{
    let front = parts.drop_last();
    if g < gathered(front).len() {
        lemma_gathered_from(front, g)
    } else {
        (parts.len() - 1, g - gathered(front).len())
    }
}

/// Every result is the row of an entry that the query accepts.
pub proof fn law_results_accepted(
    c: Catalog,
    opts: SearchOptions,
    m: Matcher,
    r: SearchResult,
    k: int,
)
    requires
        c.answered(opts, m, r),
        0 <= k < r.hits@.len(),
    ensures
        exists|v: int, i: u32|
            0 <= v < c.volumes@.len() && i < c.volumes@[v].entries@.len() && m.accepts(
                c.volumes@[v].facts(i),
            ) && r.hits@[k]@ == #[trigger] c.volumes@[v].row(i),
{
    let parts = choose|parts: Seq<SearchResult>| #[trigger]
        c.parts_of(opts, m, parts) && if parts.len() == 1 {
            r.total == parts[0].total && r.hits@ == parts[0].hits@
        } else {
            merged(parts, opts, r)
        };
    let (v, t) = if parts.len() == 1 {
        (0int, k)
    } else {
        let (all, from) = choose|all: Seq<Hit>, from: Seq<int>| #[trigger]
            resorted(gathered(parts), all, opts, from) && r.hits@ == first_of(
                all,
                opts.limit as int,
            );
        assert(r.hits@[k] == all[k]);
        assert(all[k] == gathered(parts)[from[k]]);
        lemma_gathered_from(parts, from[k])
    };
    let volume = c.volumes@[v];
    assert(volume.answered(opts, m, parts[v]));
    let order = choose|order: Seq<u32>| volume.answered_with(opts, m, parts[v], order);
    let rows = volume.top_rows(order, opts.limit as nat);
    assert(hit::rows(parts[v].hits@) == rows);
    assert(hit::rows(parts[v].hits@).len() == rows.len());
    assert(hit::rows(parts[v].hits@)[t] == rows[t]);
    assert(order.contains(order[t]));
    assert(r.hits@[k]@ == volume.row(order[t]));
}

/// A response holds as many rows as matched, up to the limit.
pub proof fn law_row_count(c: Catalog, opts: SearchOptions, m: Matcher, r: SearchResult)
    requires
        c.answered(opts, m, r),
    ensures
        r.hits@.len() == if r.total < opts.limit {
            r.total
        } else {
            opts.limit
        },
{
    let parts = choose|parts: Seq<SearchResult>| #[trigger]
        c.parts_of(opts, m, parts) && if parts.len() == 1 {
            r.total == parts[0].total && r.hits@ == parts[0].hits@
        } else {
            merged(parts, opts, r)
        };
    assert forall|i: int| 0 <= i < parts.len() implies fills(#[trigger] parts[i], opts.limit) by {
        let v = c.volumes@[i];
        assert(v.answered(opts, m, parts[i]));
        let places = choose|places: Seq<u32>| v.answered_with(opts, m, parts[i], places);
        assert(hit::rows(parts[i].hits@).len() == parts[i].hits@.len());
    }
    if parts.len() == 1 {
        assert(fills(parts[0], opts.limit));
    } else {
        let (all, from) = choose|all: Seq<Hit>, from: Seq<int>| #[trigger]
            resorted(gathered(parts), all, opts, from) && r.hits@ == first_of(
                all,
                opts.limit as int,
            );
        assert(order::arranged(gathered(parts), all, from));
        lemma_counts(parts, opts.limit);
    }
}

/// Whether a response holds as many rows as matched, up to the limit.
spec fn fills(r: SearchResult, limit: usize) -> bool {
    r.hits@.len() == if r.total < limit {
        r.total
    } else {
        limit
    }
}

proof fn lemma_counts(parts: Seq<SearchResult>, limit: usize)
    requires
        forall|i: int| 0 <= i < parts.len() ==> fills(#[trigger] parts[i], limit),
    ensures
        gathered(parts).len() < limit ==> summed(parts) == gathered(parts).len(),
        gathered(parts).len() >= limit ==> summed(parts) >= limit,
    decreases parts.len(),
{
    if parts.len() > 0 {
        lemma_counts(parts.drop_last(), limit);
        assert(fills(parts.last(), limit));
    }
}

/// With folders first, no file stands above a folder, whatever the column and the
/// direction.
pub proof fn law_folders_first(
    c: Catalog,
    opts: SearchOptions,
    m: Matcher,
    r: SearchResult,
    i: int,
    j: int,
)
    requires
        c.answered(opts, m, r),
        opts.folders_first,
        0 <= i < j < r.hits@.len(),
        r.hits@[j].is_dir,
    ensures
        r.hits@[i].is_dir,
{
    let parts = choose|parts: Seq<SearchResult>| #[trigger]
        c.parts_of(opts, m, parts) && if parts.len() == 1 {
            r.total == parts[0].total && r.hits@ == parts[0].hits@
        } else {
            merged(parts, opts, r)
        };
    if parts.len() == 1 {
        let v = c.volumes@[0];
        assert(v.answered(opts, m, parts[0]));
        let places = choose|places: Seq<u32>| v.answered_with(opts, m, parts[0], places);
        let rows = v.top_rows(places, opts.limit as nat);
        assert(hit::rows(r.hits@) == rows);
        assert(hit::rows(r.hits@).len() == r.hits@.len());
        assert(hit::rows(r.hits@)[i] == r.hits@[i]@ && hit::rows(r.hits@)[j] == r.hits@[j]@);
        assert(rows[i] == v.row(places[i]) && rows[j] == v.row(places[j]));
        assert(!v.comes_before(opts, places[j], places[i]));
    } else {
        let (all, from) = choose|all: Seq<Hit>, from: Seq<int>| #[trigger]
            resorted(gathered(parts), all, opts, from) && r.hits@ == first_of(
                all,
                opts.limit as int,
            );
        assert(!hit_before(all[j]@, all[i]@, opts));
        assert(r.hits@[i] == all[i] && r.hits@[j] == all[j]);
    }
}

} // verus!
