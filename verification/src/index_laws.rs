//! Laws of the index: paths, entries, and what a query and a result row see of them.

use crate::entry::FileEntry;
use crate::error::IndexResult;
use crate::hit::Hit;
use crate::index;
use crate::index::{EntrySnapshot, SearchIndex};
use crate::indexer;
use crate::indexer::{RawRecord, RawView};
use crate::search::EntryView;
use crate::text;
use vstd::prelude::*;

verus! {

/// The directory entry that a record stands for in paths: its first link.
pub open spec fn directory(v: SearchIndex, record: u64) -> u32 {
    index::links(v.by_record@, record)[0]
}

/// Whether a record is known to the index.
pub open spec fn known(v: SearchIndex, record: u64) -> bool {
    index::links(v.by_record@, record).len() > 0
}

/// Whether the way from a record up takes `steps` directories: to the root, which is
/// record 5, or to a record that is not known.
pub open spec fn climbs(v: SearchIndex, record: u64, steps: nat) -> bool
    decreases steps,
{
    if steps == 0 {
        record == 5 || !known(v, record)
    } else {
        record != 5 && known(v, record) && climbs(
            v,
            v.entries@[directory(v, record) as int].parent.0,
            (steps - 1) as nat,
        )
    }
}

proof fn lemma_climb(v: SearchIndex, record: u64, steps: nat, depth: nat)
    requires
        climbs(v, record, steps),
        depth + steps <= 4096,
    ensures
        index::parents(v.by_record@, v.entries@, record, depth) == index::parents(
            v.by_record@,
            v.entries@,
            record,
            0,
        ),
    decreases steps,
{
    if steps > 0 {
        let up = v.entries@[directory(v, record) as int].parent.0;
        lemma_climb(v, up, (steps - 1) as nat, depth + 1);
        lemma_climb(v, up, (steps - 1) as nat, 1);
    }
}

/// The path of an entry right under the root, or under a directory that is not known,
/// is the drive, a colon, a backslash and its name.
pub proof fn law_path_at_root(v: SearchIndex, i: u32)
    requires
        i < v.entries@.len(),
        v.entries@[i as int].parent.0 == 5 || !known(v, v.entries@[i as int].parent.0),
    ensures
        v.path(i) == seq![v.drive, ':', '\\'] + v.entries@[i as int].name@,
{
    let e = v.entries@[i as int];
    let names = seq![e.name@];
    assert(names + Seq::<Seq<char>>::empty() =~= names);
    assert(names.drop_first() =~= Seq::empty());
    assert(index::joined(names.drop_first()) == Seq::<char>::empty());
    assert(index::joined(names) =~= seq!['\\'] + e.name@);
    assert(v.path(i) =~= seq![v.drive, ':', '\\'] + e.name@);
}

/// The path of an entry below is the path of its directory, a backslash and its name,
/// up to 4096 directories deep.
pub proof fn law_path_below(v: SearchIndex, i: u32, steps: nat)
    requires
        i < v.entries@.len(),
        v.entries@[i as int].parent.0 != 5,
        known(v, v.entries@[i as int].parent.0),
        climbs(v, v.entries@[i as int].parent.0, steps),
        steps <= 4096,
    ensures
        v.path(i) == v.path(directory(v, v.entries@[i as int].parent.0)).push('\\')
            + v.entries@[i as int].name@,
{
    let e = v.entries@[i as int];
    let p = e.parent.0;
    let d = v.entries@[directory(v, p) as int];
    lemma_climb(v, d.parent.0, (steps - 1) as nat, 1);
    let above = index::parents(v.by_record@, v.entries@, d.parent.0, 0);
    let up = seq![d.name@] + above;
    let names = seq![e.name@] + up;
    assert(index::parents(v.by_record@, v.entries@, p, 0) == up);
    assert(names.drop_first() =~= up);
    assert(index::joined(names) == index::joined(up).push('\\') + e.name@);
    assert(v.path(i) =~= (seq![v.drive, ':'] + index::joined(up)).push('\\') + e.name@);
}

/// A path is rebuilt as the index says it is.
pub proof fn law_build_path(v: SearchIndex, i: u32, r: String)
    requires
        call_ensures(SearchIndex::build_path, (&v, i), r),
    ensures
        r@ == v.path(i),
{
}

/// What a query sees of an entry is what the entry holds, each thing in its place, with
/// the path that the index gives it.
pub proof fn law_facts(v: SearchIndex, i: u32)
    requires
        v.wf(),
        i < v.entries@.len(),
    ensures
        ({
            let e = v.entries@[i as int];
            let f = v.facts(i);
            &&& f.name == e.name@
            &&& f.name_lower == text::lower(e.name@)
            &&& f.path == v.path(i)
            &&& f.path_lower == text::lower(v.path(i))
            &&& f.is_dir == e.is_dir
            &&& f.size == e.size
            &&& f.modified_ms == e.modified_ms
            &&& f.created_ms == e.created_ms
            &&& f.accessed_ms == e.accessed_ms
            &&& f.attributes == e.attributes
        }),
{
    let e = v.entries@[i as int];
    assert(e.name_lower@ == text::lower(e.name@));
}

/// What a view of an entry shows is what it holds.
pub proof fn law_view(e: EntryView)
    ensures
        e@.name == e.name@,
        e@.name_lower == e.name_lower@,
        e@.path == e.path@,
        e@.path_lower == e.path_lower@,
        e@.is_dir == e.is_dir,
        e@.size == e.size,
        e@.modified_ms == e.modified_ms,
        e@.created_ms == e.created_ms,
        e@.accessed_ms == e.accessed_ms,
        e@.attributes == e.attributes,
{
}

/// A result row shows the entry: its name and path, its size or -1 when it has none,
/// its times or 0 where they are unknown, its attributes and its kind.
pub proof fn law_row(v: SearchIndex, i: u32)
    requires
        i < v.entries@.len(),
    ensures
        ({
            let e = v.entries@[i as int];
            let row = v.row(i);
            &&& row.name == e.name@
            &&& row.path == v.path(i)
            &&& row.is_dir == e.is_dir
            &&& row.attributes == e.attributes
            &&& e.is_dir || e.size is None ==> row.size == -1
            &&& !e.is_dir ==> (e.size matches Some(n) ==> (n <= i64::MAX ==> row.size == n))
            &&& e.modified_ms matches Some(t) ==> row.modified == t
            &&& e.created_ms matches Some(t) ==> row.created == t
            &&& e.accessed_ms matches Some(t) ==> row.accessed == t
            &&& e.modified_ms is None ==> row.modified == 0
            &&& e.created_ms is None ==> row.created == 0
            &&& e.accessed_ms is None ==> row.accessed == 0
        }),
{
}

/// What a result row shows is what it holds.
pub proof fn law_hit(h: Hit)
    ensures
        h@.name == h.name@,
        h@.path == h.path@,
        h@.size == h.size,
        h@.modified == h.modified,
        h@.created == h.created,
        h@.accessed == h.accessed,
        h@.attributes == h.attributes,
        h@.is_dir == h.is_dir,
{
}

/// A FILETIME counts steps of 100 ns since 1601, which lies 134774 days before 1970; its
/// millisecond is the last one that it has reached. 0 is no time.
pub proof fn law_filetime(ft: u64)
    ensures
        ft == 0 ==> index::unix_ms(ft) is None,
        ft != 0 ==> (index::unix_ms(ft) matches Some(ms) && {
            let since = (ms + 134_774 * 86_400_000) * 10_000;
            since <= ft < since + 10_000
        }),
{
}

/// An entry holds what its record says: each time from its own FILETIME, and the
/// lowercase of its own name.
pub proof fn law_entry(e: FileEntry, r: RawView)
    requires
        index::taken(e, r),
    ensures
        e.record.0 == r.record_no,
        e.parent.0 == r.parent_no,
        e.name@ == r.name,
        e.name_lower@ == text::lower(r.name),
        e.is_dir == r.is_dir,
        e.size == r.size,
        e.modified_ms == index::unix_ms(r.modified_ft),
        e.created_ms == index::unix_ms(r.created_ft),
        e.accessed_ms == index::unix_ms(r.accessed_ft),
        e.attributes == r.attributes,
{
}

/// What a record shows is what it holds.
pub proof fn law_raw(r: RawRecord)
    ensures
        r@.record_no == r.record_no,
        r@.parent_no == r.parent_no,
        r@.name == r.name@,
        r@.is_dir == r.is_dir,
        r@.size == r.size,
        r@.modified_ft == r.modified_ft,
        r@.created_ft == r.created_ft,
        r@.accessed_ft == r.accessed_ft,
        r@.attributes == r.attributes,
{
}

/// Every record gives an entry but that of the root and those without a name.
pub proof fn law_kept(r: RawView)
    ensures
        index::is_kept(r) <==> r.name.len() > 0 && r.record_no != 5,
{
}

/// An entry that was loaded from a snapshot holds what the snapshot does, and the
/// lowercase of its own name.
pub proof fn law_loaded(e: FileEntry, s: EntrySnapshot)
    requires
        index::loaded(e, s),
    ensures
        e.record.0 == s.record,
        e.parent.0 == s.parent,
        e.name@ == s.name@,
        e.name_lower@ == text::lower(s.name@),
        e.is_dir == s.is_dir,
        e.size == s.size,
        e.modified_ms == s.modified_ms,
        e.created_ms == s.created_ms,
        e.accessed_ms == s.accessed_ms,
        e.attributes == s.attributes,
{
}

/// Whether two texts are the same up to the place `k`, where the first ends or has the
/// lesser character.
pub open spec fn lesser_at(a: Seq<char>, b: Seq<char>, k: int) -> bool {
    &&& 0 <= k <= a.len()
    &&& k < b.len()
    &&& forall|i: int| 0 <= i < k ==> a[i] == b[i]
    &&& k == a.len() || a[k] < b[k]
}

/// A text comes before another exactly when at the first place where they differ it has
/// ended or has the lesser character.
pub proof fn law_text_order(a: Seq<char>, b: Seq<char>)
    ensures
        text::text_lt(a, b) <==> exists|k: int| lesser_at(a, b, k),
    decreases a.len(),
{
    if a.len() == 0 {
        if b.len() > 0 {
            assert(lesser_at(a, b, 0));
        }
    } else if b.len() > 0 {
        let (x, y) = (a.drop_first(), b.drop_first());
        if a[0] == b[0] {
            law_text_order(x, y);
            if text::text_lt(x, y) {
                let k = choose|k: int| lesser_at(x, y, k);
                assert forall|i: int| 0 <= i < k + 1 implies a[i] == b[i] by {
                    if i > 0 {
                        assert(x[i - 1] == y[i - 1]);
                    }
                }
                assert(k < x.len() ==> a[k + 1] == x[k] && b[k + 1] == y[k]);
                assert(lesser_at(a, b, k + 1));
            }
            if exists|k: int| lesser_at(a, b, k) {
                let k = choose|k: int| lesser_at(a, b, k);
                assert(k > 0);
                assert forall|i: int| 0 <= i < k - 1 implies x[i] == y[i] by {
                    assert(a[i + 1] == b[i + 1]);
                }
                assert(lesser_at(x, y, k - 1));
            }
        } else {
            if a[0] < b[0] {
                assert(lesser_at(a, b, 0));
            } else if exists|k: int| lesser_at(a, b, k) {
                let k = choose|k: int| lesser_at(a, b, k);
                assert(k > 0 ==> a[0] == b[0]);
            }
        }
    }
}

proof fn lemma_no_named_link(
    entries: Seq<FileEntry>,
    positions: Seq<u32>,
    parent: u64,
    name: Seq<char>,
)
    requires
        forall|k: int|
            0 <= k < positions.len() ==> (index::entry_at(
                entries,
                #[trigger] positions[k],
            )).parent.0 != parent || index::entry_at(entries, positions[k]).name@ != name,
    ensures
        index::named_link(entries, positions, parent, name) is None,
    decreases positions.len(),
{
    if positions.len() > 0 {
        let rest = positions.drop_first();
        assert(index::entry_at(entries, positions[0]).parent.0 != parent || index::entry_at(
            entries,
            positions[0],
        ).name@ != name);
        assert forall|k: int| 0 <= k < rest.len() implies (index::entry_at(
            entries,
            #[trigger] rest[k],
        )).parent.0 != parent || index::entry_at(entries, rest[k]).name@ != name by {
            assert(rest[k] == positions[k + 1]);
        }
        lemma_no_named_link(entries, rest, parent, name);
    }
}

/// A change of a record that the index does not have adds an entry behind all the others;
/// so does a new parent or name of a record with several links.
pub proof fn law_upsert_adds(before: SearchIndex, after: SearchIndex, e: FileEntry)
    requires
        before.wf(),
        index::upserted(before, after, e),
        index::links(before.by_record@, e.record.0).len() != 1,
        forall|i: int|
            0 <= i < before.entries@.len() && (#[trigger] before.entries@[i]).record == e.record
                ==> before.entries@[i].parent != e.parent || before.entries@[i].name@ != e.name@,
    ensures
        after.entries@ == before.entries@.push(e),
        index::links(after.by_record@, e.record.0).contains(before.entries@.len() as u32),
{
    let positions = index::links(before.by_record@, e.record.0);
    assert forall|k: int| 0 <= k < positions.len() implies (index::entry_at(
        before.entries@,
        #[trigger] positions[k],
    )).parent.0 != e.parent.0 || index::entry_at(before.entries@, positions[k]).name@
        != e.name@ by {
        assert(positions[k] < before.entries@.len());
        assert(before.entries@[positions[k] as int].record.0 == e.record.0);
    }
    lemma_no_named_link(before.entries@, positions, e.parent.0, e.name@);
    let now = index::links(after.by_record@, e.record.0);
    assert(now[positions.len() as int] == before.entries@.len() as u32);
}

/// The entries of a listing are those of its records one by one, in their order: each
/// record gives one, but for those without a name and for the root.
pub proof fn law_kept_rows(a: Seq<RawView>, b: Seq<RawView>)
    ensures
        index::kept_rows(a + b) == index::kept_rows(a) + index::kept_rows(b),
        a.len() == 1 ==> index::kept_rows(a) == if a[0].name.len() > 0 && a[0].record_no != 5 {
            a
        } else {
            Seq::empty()
        },
    decreases b.len(),
{
    if b.len() == 0 {
        assert(a + b =~= a);
        assert(index::kept_rows(a) + index::kept_rows(b) =~= index::kept_rows(a));
    } else {
        law_kept_rows(a, b.drop_last());
        assert((a + b).drop_last() =~= a + b.drop_last());
        assert((a + b).last() == b.last());
        assert(index::kept_rows(a + b) =~= index::kept_rows(a) + index::kept_rows(b));
    }
    if a.len() == 1 {
        let none = Seq::<RawView>::empty();
        assert(a.drop_last() =~= none);
        assert(index::kept_rows(a.drop_last()) =~= none);
        assert(none.push(a[0]) =~= a);
    }
}

/// The index of a volume holds the records of its listing that give an entry, in their
/// order, and under each record the places of its entries, in ascending order. A listing
/// that failed is passed on.
pub proof fn law_built(
    drive: char,
    listed: IndexResult<Vec<RawRecord>>,
    r: IndexResult<SearchIndex>,
    i: int,
)
    requires
        index::built(drive, listed, r),
    ensures
        listed is Err ==> r is Err,
        listed matches Ok(records) ==> records@.len() <= u32::MAX ==> r is Ok,
        r matches Ok(v) ==> {
            let rows = index::kept_rows((listed->Ok_0)@.map_values(|x: RawRecord| x@));
            &&& v.drive == drive
            &&& v.entries@.len() == rows.len()
            &&& 0 <= i < rows.len() ==> {
                let e = v.entries@[i];
                &&& e.record.0 == rows[i].record_no
                &&& e.parent.0 == rows[i].parent_no
                &&& e.name@ == rows[i].name
                &&& index::links(v.by_record@, rows[i].record_no).contains(i as u32)
            }
        },
{
    if let Ok(v) = r {
        let records = listed->Ok_0;
        let rows = index::kept_rows(records@.map_values(|x: RawRecord| x@));
        assert(indexer::raw_views(records@) =~= records@.map_values(|x: RawRecord| x@));
        if 0 <= i < rows.len() {
            assert(index::taken(v.entries@[i], rows[i]));
            assert(index::links(v.by_record@, v.entries@[i].record.0).contains(i as u32));
        }
    }
}

} // verus!
