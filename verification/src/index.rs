//! The in-memory file index for a single volume: builds from file records,
//! answers queries via a compiled [`Matcher`], reconstructs full paths on demand,
//! and accepts live mutations from the change-journal watcher.

use crate::entry::{FileEntry, RecordId};
use crate::hit::{Hit, HitView, SearchResult};
use crate::error::{IndexError, IndexResult};
use crate::indexer;
use crate::indexer::{RawRecord, RawView, VolumeEnumerator};
use crate::matcher::Matcher;
use crate::order;
use crate::order::{par_filter, par_map, par_sort_unstable_by, sort_numbers};
use crate::rank;
use crate::search::{EntryView, Facts, SearchOptions, SortKey};
use crate::text;
use crate::text::{lowercase, same_text};
use std::cmp::Ordering;
use std::collections::HashMap;
use std::sync::atomic::AtomicUsize;
use vstd::prelude::*;
use vstd::string::*;

verus! {

broadcast use vstd::std_specs::hash::group_hash_axioms;

/// NTFS reserves record 5 for the volume root directory.
pub const ROOT_RECORD: u64 = 5;

/// Milliseconds between the Windows (1601) and Unix (1970) epochs.
pub const FILETIME_UNIX_DIFF_MS: i64 = 11_644_473_600_000;

/// Guard against malformed parent cycles when walking to the root. Set far above
/// any real NTFS nesting (a legitimate tree never approaches this) so the cap
/// only ever fires on a corrupt parent cycle, not on a genuinely deep path.
pub const MAX_PATH_DEPTH: usize = 4096;

/// The Unix milliseconds of a Windows FILETIME (100 ns ticks since 1601); 0 is no
/// time.
pub open spec fn unix_ms(ft: u64) -> Option<i64> {
    if ft == 0 {
        None
    } else {
        Some((ft / 10_000 - FILETIME_UNIX_DIFF_MS) as i64)
    }
}

/// The Unix milliseconds of a Windows FILETIME; 0 is no time.
pub fn filetime_to_unix_ms(ft: u64) -> (r: Option<i64>)
    ensures
        r == unix_ms(ft),
{
    if ft == 0 {
        None
    } else {
        Some((ft / 10_000) as i64 - FILETIME_UNIX_DIFF_MS)
    }
}

/// A single entry as stored in the on-disk index cache. `name_lower` and the
/// lookup structures are recomputed on load, so they are not persisted.
#[derive(Debug)]
pub struct EntrySnapshot {
    pub record: u64,
    pub parent: u64,
    pub name: String,
    pub is_dir: bool,
    pub size: Option<u64>,
    pub modified_ms: Option<i64>,
    pub created_ms: Option<i64>,
    pub accessed_ms: Option<i64>,
    pub attributes: u32,
}

/// In-memory file index for a single volume.
pub struct SearchIndex {
    pub entries: Vec<FileEntry>,
    /// MFT record number -> positions in `entries`. A hardlinked file occupies
    /// one MFT record but appears once per name, so a record maps to one position
    /// per link; the live update/delete paths must touch every link, not one.
    pub by_record: HashMap<u64, Vec<u32>>,
    /// Entry positions sorted by `name_lower`, for the instant default view.
    pub by_name: Vec<u32>,
    /// Set once live mutations make `by_name` stale.
    pub name_order_stale: bool,
    pub drive: char,
}

/// The entry at a position.
pub open spec fn entry_at(entries: Seq<FileEntry>, i: u32) -> FileEntry {
    entries[i as int]
}

/// The entry at a position.
fn at(entries: &Vec<FileEntry>, i: u32) -> (r: &FileEntry)
    requires
        i < entries@.len(),
    ensures
        *r == entry_at(entries@, i),
{
    &entries[i as usize]
}

/// The positions that a record maps to; none when it is not mapped.
pub open spec fn links(by_record: Map<u64, Vec<u32>>, record: u64) -> Seq<u32> {
    if by_record.contains_key(record) {
        by_record[record]@
    } else {
        Seq::empty()
    }
}

/// Whether the map holds exactly the positions of the entries: each one under its
/// record and once, and no record without one.
pub open spec fn maps_entries(by_record: Map<u64, Vec<u32>>, entries: Seq<FileEntry>) -> bool {
    &&& forall|i: int|
        0 <= i < entries.len() ==> links(by_record, (#[trigger] entries[i]).record.0).contains(
            i as u32,
        )
    &&& forall|record: u64, k: int|
        #![trigger links(by_record, record)[k]]
        0 <= k < links(by_record, record).len() ==> links(by_record, record)[k] < entries.len()
            && entry_at(entries, links(by_record, record)[k]).record.0 == record
    &&& forall|record: u64| #[trigger] links(by_record, record).no_duplicates()
    &&& forall|record: u64| #[trigger]
        by_record.contains_key(record) ==> by_record[record]@.len() > 0
}

/// Whether `order` lists every position below `count` once.
pub open spec fn lists_all(order: Seq<u32>, count: nat) -> bool {
    &&& order.len() == count
    &&& order.no_duplicates()
    &&& forall|k: int| 0 <= k < order.len() ==> #[trigger] order[k] < count
}

/// Whether the positions stand in the order of the lowercase names.
pub open spec fn by_lower_name(order: Seq<u32>, entries: Seq<FileEntry>) -> bool {
    forall|i: int, j: int|
        0 <= i < j < order.len() ==> !text::text_lt(
            entry_at(entries, #[trigger] order[j]).name_lower@,
            entry_at(entries, #[trigger] order[i]).name_lower@,
        )
}

/// Whether every entry carries its own lowercase name.
pub open spec fn lower_names(entries: Seq<FileEntry>) -> bool {
    forall|i: int|
        0 <= i < entries.len() ==> (#[trigger] entries[i]).name_lower@ == text::lower(
            entries[i].name@,
        )
}

impl SearchIndex {
    /// What every operation keeps.
    pub open spec fn wf(self) -> bool {
        &&& self.entries@.len() <= u32::MAX
        &&& maps_entries(self.by_record@, self.entries@)
        &&& lower_names(self.entries@)
        &&& !self.name_order_stale ==> lists_all(self.by_name@, self.entries@.len())
            && by_lower_name(self.by_name@, self.entries@)
    }
}

/// The positions below `n` of the entries with this record, in ascending order.
pub open spec fn positions_of(entries: Seq<FileEntry>, record: u64, n: int) -> Seq<u32>
    decreases n,
{
    if n <= 0 {
        Seq::empty()
    } else if entries[n - 1].record.0 == record {
        positions_of(entries, record, n - 1).push((n - 1) as u32)
    } else {
        positions_of(entries, record, n - 1)
    }
}

/// Whether the map holds for each record the positions of its entries in ascending
/// order.
pub open spec fn maps_in_order(by_record: Map<u64, Vec<u32>>, entries: Seq<FileEntry>) -> bool {
    forall|record: u64| #[trigger]
        links(by_record, record) == positions_of(entries, record, entries.len() as int)
}

proof fn lemma_positions(entries: Seq<FileEntry>, record: u64, n: int)
    requires
        0 <= n <= entries.len(),
        entries.len() <= u32::MAX,
    ensures
        ({
            let p = positions_of(entries, record, n);
            &&& p.no_duplicates()
            &&& forall|k: int|
                0 <= k < p.len() ==> #[trigger] p[k] < n && entry_at(entries, p[k]).record.0
                    == record
            &&& forall|i: int|
                0 <= i < n && (#[trigger] entries[i]).record.0 == record ==> p.contains(i as u32)
        }),
    decreases n,
{
    if n > 0 {
        lemma_positions(entries, record, n - 1);
        let before = positions_of(entries, record, n - 1);
        let p = positions_of(entries, record, n);
        if entries[n - 1].record.0 == record {
            assert(p[p.len() - 1] == (n - 1) as u32);
            assert forall|i: int|
                0 <= i < n && (#[trigger] entries[i]).record.0 == record implies p.contains(
                i as u32,
            ) by {
                if i < n - 1 {
                    assert(before.contains(i as u32));
                    let k = choose|k: int| 0 <= k < before.len() && before[k] == i as u32;
                    assert(p[k] == i as u32);
                }
            }
        }
    }
}

proof fn lemma_maps(by_record: Map<u64, Vec<u32>>, entries: Seq<FileEntry>)
    requires
        entries.len() <= u32::MAX,
        maps_in_order(by_record, entries),
        forall|record: u64| #[trigger]
            by_record.contains_key(record) ==> by_record[record]@.len() > 0,
    ensures
        maps_entries(by_record, entries),
{
    let n = entries.len() as int;
    assert forall|i: int| 0 <= i < entries.len() implies links(
        by_record,
        (#[trigger] entries[i]).record.0,
    ).contains(i as u32) by {
        lemma_positions(entries, entries[i].record.0, n);
        assert(links(by_record, entries[i].record.0) == positions_of(
            entries,
            entries[i].record.0,
            n,
        ));
    }
    assert forall|record: u64, k: int|
        #![trigger links(by_record, record)[k]]
        0 <= k < links(by_record, record).len() implies links(by_record, record)[k] < entries.len()
        && entry_at(entries, links(by_record, record)[k]).record.0 == record by {
        lemma_positions(entries, record, n);
        assert(links(by_record, record) == positions_of(entries, record, n));
    }
    assert forall|record: u64| #[trigger] links(by_record, record).no_duplicates() by {
        lemma_positions(entries, record, n);
        assert(links(by_record, record) == positions_of(entries, record, n));
    }
}

/// Two lists with the same items, each once in the first, hold each once.
proof fn lemma_permuted<T>(before: Seq<T>, after: Seq<T>)
    requires
        before.to_multiset() == after.to_multiset(),
        before.no_duplicates(),
    ensures
        after.len() == before.len(),
        after.no_duplicates(),
        forall|x: T| #[trigger] after.contains(x) <==> before.contains(x),
{
    before.to_multiset_ensures();
    after.to_multiset_ensures();
    before.lemma_multiset_has_no_duplicates();
    after.lemma_multiset_has_no_duplicates_conv();
    assert forall|x: T| #[trigger] after.contains(x) <==> before.contains(x) by {
        vstd::seq_lib::to_multiset_contains(before, x);
        vstd::seq_lib::to_multiset_contains(after, x);
    }
}

/// Append a position to those of its record.
fn add_position(by_record: &mut HashMap<u64, Vec<u32>>, record: u64, position: u32)
    ensures
        final(by_record)@.contains_key(record),
        final(by_record)@[record]@ == links(old(by_record)@, record).push(position),
        final(by_record)@.dom() == old(by_record)@.dom().insert(record),
        forall|r: u64|
            r != record && #[trigger] final(by_record)@.contains_key(r) ==> final(by_record)@[r]
                == old(by_record)@[r],
{
    let mut positions = match by_record.remove(&record) {
        Some(v) => v,
        None => Vec::new(),
    };
    assert(positions@ =~= links(old(by_record)@, record));
    positions.push(position);
    by_record.insert(record, positions);
    assert(by_record@.dom() =~= old(by_record)@.dom().insert(record));
}

/// Map each record to the positions of its entries.
fn map_records(entries: &Vec<FileEntry>) -> (r: HashMap<u64, Vec<u32>>)
    requires
        entries@.len() <= u32::MAX,
    ensures
        maps_in_order(r@, entries@),
        maps_entries(r@, entries@),
{
    let mut map: HashMap<u64, Vec<u32>> = HashMap::new();
    let mut i: usize = 0;
    while i < entries.len()
        invariant
            i <= entries@.len() <= u32::MAX,
            forall|record: u64| #[trigger]
                links(map@, record) == positions_of(entries@, record, i as int),
            forall|record: u64| #[trigger]
                map@.contains_key(record) ==> map@[record]@.len() > 0,
        decreases entries@.len() - i,
    {
        let record: u64 = entries[i].record.0;
        let ghost before = map@;
        add_position(&mut map, record, i as u32);
        assert forall|r: u64| #[trigger] links(map@, r) == positions_of(
            entries@,
            r,
            i + 1,
        ) by {
            assert(links(before, r) == positions_of(entries@, r, i as int));
            if r != record {
                assert(map@.contains_key(r) == before.contains_key(r));
            }
        }
        i += 1;
    }
    proof {
        lemma_maps(map@, entries@);
    }
    map
}

/// The positions below `count`, in order.
fn all_positions(count: usize) -> (r: Vec<u32>)
    requires
        count <= u32::MAX,
    ensures
        lists_all(r@, count as nat),
        forall|i: u32| #[trigger] r@.contains(i) <==> i < count,
{
    let mut out: Vec<u32> = Vec::new();
    let mut i: usize = 0;
    while i < count
        invariant
            i <= count <= u32::MAX,
            out@.len() == i,
            forall|k: int| 0 <= k < i ==> out@[k] == k,
        decreases count - i,
    {
        out.push(i as u32);
        i += 1;
    }
    assert forall|i: u32| #[trigger] out@.contains(i) <==> i < count by {
        if i < count {
            assert(out@[i as int] == i);
        }
    }
    out
}

/// Compare two positions by the lowercase names of their entries.
fn name_order(entries: &Vec<FileEntry>, a: u32, b: u32) -> (o: Ordering)
    requires
        a < entries@.len(),
        b < entries@.len(),
    ensures
        order::order_agrees(
            o,
            text::text_lt(entry_at(entries@, a).name_lower@, entry_at(entries@, b).name_lower@),
            text::text_lt(entry_at(entries@, b).name_lower@, entry_at(entries@, a).name_lower@),
        ),
{
    order::text_order(at(entries, a).name_lower.as_str(), at(entries, b).name_lower.as_str())
}

/// Sort the positions by the lowercase names of their entries.
fn sort_by_name(entries: &Vec<FileEntry>, positions: Vec<u32>) -> (r: Vec<u32>)
    requires
        lists_all(positions@, entries@.len()),
    ensures
        lists_all(r@, entries@.len()),
        by_lower_name(r@, entries@),
{
    let mut order = positions;
    let f = |a: &u32, b: &u32| -> (o: Ordering)
        requires
            *a < entries@.len(),
            *b < entries@.len(),
        ensures
            order::order_agrees(
                o,
                text::text_lt(
                    entry_at(entries@, *a).name_lower@,
                    entry_at(entries@, *b).name_lower@,
                ),
                text::text_lt(
                    entry_at(entries@, *b).name_lower@,
                    entry_at(entries@, *a).name_lower@,
                ),
            ),
        { name_order(entries, *a, *b) };
    proof {
        assert forall|a: u32| order@.contains(a) implies a < entries@.len() by {
            let k = choose|k: int| 0 <= k < order@.len() && order@[k] == a;
            assert(order@[k] < entries@.len());
        }
        assert forall|a: u32, b: u32, c: u32, o: Ordering, p: Ordering, q: Ordering|
            order@.contains(a) && order@.contains(b) && order@.contains(c) && #[trigger] f.ensures(
                (&a, &b),
                o,
            ) && #[trigger] f.ensures((&b, &c), p) && #[trigger] f.ensures((&a, &c), q) && !(
            o is Greater) && !(p is Greater) implies !(q is Greater) by {
            rank::lemma_text_order(
                entry_at(entries@, a).name_lower@,
                entry_at(entries@, b).name_lower@,
                entry_at(entries@, c).name_lower@,
            );
        }
    }
    par_sort_unstable_by(&mut order, f);
    proof {
        lemma_permuted(positions@, order@);
        assert forall|k: int| 0 <= k < order@.len() implies #[trigger] order@[k] < entries@.len() by {
            assert(order@.contains(order@[k]));
            let m = choose|m: int| 0 <= m < positions@.len() && positions@[m] == order@[k];
            assert(positions@[m] < entries@.len());
        }
        assert forall|i: int, j: int| 0 <= i < j < order@.len() implies !text::text_lt(
            entry_at(entries@, #[trigger] order@[j]).name_lower@,
            entry_at(entries@, #[trigger] order@[i]).name_lower@,
        ) by {
            assert(order::order_not_after(f, order@[i], order@[j]));
        }
    }
    order
}

impl SearchIndex {
    /// Rebuild the lookup map and the sorted name view from a set of entries.
    fn finalize(entries: Vec<FileEntry>, drive: char) -> (r: Self)
        requires
            entries@.len() <= u32::MAX,
            lower_names(entries@),
        ensures
            r.wf(),
            r.entries == entries,
            r.drive == drive,
            !r.name_order_stale,
            maps_in_order(r.by_record@, entries@),
    {
        let by_record = map_records(&entries);
        let positions = all_positions(entries.len());
        let by_name = sort_by_name(&entries, positions);
        SearchIndex { entries, by_record, by_name, name_order_stale: false, drive }
    }
}

/// Whether an entry is what a snapshot of it becomes on load.
pub open spec fn loaded(e: FileEntry, s: EntrySnapshot) -> bool {
    &&& e.record.0 == s.record
    &&& e.parent.0 == s.parent
    &&& e.name@ == s.name@
    &&& e.name_lower@ == text::lower(s.name@)
    &&& e.is_dir == s.is_dir
    &&& e.size == s.size
    &&& e.modified_ms == s.modified_ms
    &&& e.created_ms == s.created_ms
    &&& e.accessed_ms == s.accessed_ms
    &&& e.attributes == s.attributes
}

/// Whether the entries are what the snapshots become on load, in order.
pub open spec fn all_loaded(entries: Seq<FileEntry>, snapshot: Seq<EntrySnapshot>) -> bool {
    &&& entries.len() == snapshot.len()
    &&& forall|i: int| 0 <= i < entries.len() ==> loaded(#[trigger] entries[i], snapshot[i])
}

impl SearchIndex {
    /// Reconstruct an index from a persisted snapshot (no MFT read).
    pub fn import(drive: char, snapshot: Vec<EntrySnapshot>) -> (r: Self)
        requires
            snapshot@.len() <= u32::MAX,
        ensures
            r.wf(),
            r.drive == drive,
            !r.name_order_stale,
            all_loaded(r.entries@, snapshot@),
            maps_in_order(r.by_record@, r.entries@),
    {
        let mut entries: Vec<FileEntry> = Vec::new();
        let mut i: usize = 0;
        while i < snapshot.len()
            invariant
                i <= snapshot@.len(),
                entries@.len() == i,
                forall|k: int| 0 <= k < i ==> loaded(#[trigger] entries@[k], snapshot@[k]),
            decreases snapshot@.len() - i,
        {
            let s = &snapshot[i];
            entries.push(
                FileEntry {
                    record: RecordId(s.record),
                    parent: RecordId(s.parent),
                    name: s.name.clone(),
                    name_lower: lowercase(s.name.as_str()),
                    is_dir: s.is_dir,
                    size: s.size,
                    modified_ms: s.modified_ms,
                    created_ms: s.created_ms,
                    accessed_ms: s.accessed_ms,
                    attributes: s.attributes,
                },
            );
            i += 1;
        }
        Self::finalize(entries, drive)
    }

    /// Export entries for persistence to the on-disk cache.
    pub fn export(&self) -> (r: Vec<EntrySnapshot>)
        requires
            lower_names(self.entries@),
        ensures
            all_loaded(self.entries@, r@),
    {
        let mut out: Vec<EntrySnapshot> = Vec::new();
        let mut i: usize = 0;
        while i < self.entries.len()
            invariant
                i <= self.entries@.len(),
                lower_names(self.entries@),
                out@.len() == i,
                forall|k: int| 0 <= k < i ==> loaded(#[trigger] self.entries@[k], out@[k]),
            decreases self.entries@.len() - i,
        {
            let e = &self.entries[i];
            assert(e.name_lower@ == text::lower(e.name@));
            out.push(
                EntrySnapshot {
                    record: e.record.0,
                    parent: e.parent.0,
                    name: e.name.clone(),
                    is_dir: e.is_dir,
                    size: e.size,
                    modified_ms: e.modified_ms,
                    created_ms: e.created_ms,
                    accessed_ms: e.accessed_ms,
                    attributes: e.attributes,
                },
            );
            i += 1;
        }
        out
    }

    /// How many entries the index holds.
    pub fn len(&self) -> (r: usize)
        ensures
            r == self.entries@.len(),
    {
        self.entries.len()
    }

    /// The drive letter of the volume.
    pub fn drive(&self) -> (r: char)
        ensures
            r == self.drive,
    {
        self.drive
    }
}

/// Whether two entries hold the same values.
pub open spec fn same_entry(a: FileEntry, b: FileEntry) -> bool {
    &&& a.record == b.record
    &&& a.parent == b.parent
    &&& a.name@ == b.name@
    &&& a.name_lower@ == b.name_lower@
    &&& a.is_dir == b.is_dir
    &&& a.size == b.size
    &&& a.modified_ms == b.modified_ms
    &&& a.created_ms == b.created_ms
    &&& a.accessed_ms == b.accessed_ms
    &&& a.attributes == b.attributes
}

/// What an index exports comes back on import: an index that is imported from a
/// snapshot which another index exported holds the same entries in the same order.
pub proof fn law_export_import(
    before: SearchIndex,
    snapshot: Seq<EntrySnapshot>,
    after: SearchIndex,
)
    requires
        all_loaded(before.entries@, snapshot),
        all_loaded(after.entries@, snapshot),
    ensures
        before.entries@.len() == after.entries@.len(),
        forall|i: int|
            0 <= i < before.entries@.len() ==> same_entry(
                #[trigger] before.entries@[i],
                after.entries@[i],
            ),
{
    assert forall|i: int| 0 <= i < before.entries@.len() implies same_entry(
        #[trigger] before.entries@[i],
        after.entries@[i],
    ) by {
        assert(loaded(before.entries@[i], snapshot[i]));
        assert(loaded(after.entries@[i], snapshot[i]));
    }
}

/// Whether a record gives an entry. The root record's name is "."; it is never a
/// useful search hit.
pub open spec fn is_kept(r: RawView) -> bool {
    r.name.len() > 0 && r.record_no != ROOT_RECORD
}

/// Whether an entry is what a record becomes.
pub open spec fn taken(e: FileEntry, r: RawView) -> bool {
    &&& e.record.0 == r.record_no
    &&& e.parent.0 == r.parent_no
    &&& e.name@ == r.name
    &&& e.name_lower@ == text::lower(r.name)
    &&& e.is_dir == r.is_dir
    &&& e.size == r.size
    &&& e.modified_ms == unix_ms(r.modified_ft)
    &&& e.created_ms == unix_ms(r.created_ft)
    &&& e.accessed_ms == unix_ms(r.accessed_ft)
    &&& e.attributes == r.attributes
}

/// The entry of a record; none when it has no name or is that of the root.
fn raw_to_entry(r: &RawRecord) -> (e: Option<FileEntry>)
    ensures
        e is Some <==> is_kept(r@),
        e matches Some(x) ==> taken(x, r@),
{
    if r.name.as_str().is_empty() || r.record_no == ROOT_RECORD {
        return None;
    }
    let name_lower = lowercase(r.name.as_str());
    Some(
        FileEntry {
            record: RecordId(r.record_no),
            parent: RecordId(r.parent_no),
            name: r.name.clone(),
            name_lower,
            is_dir: r.is_dir,
            size: r.size,
            modified_ms: filetime_to_unix_ms(r.modified_ft),
            created_ms: filetime_to_unix_ms(r.created_ft),
            accessed_ms: filetime_to_unix_ms(r.accessed_ft),
            attributes: r.attributes,
        },
    )
}

/// The first of the positions whose entry has this parent and name.
pub open spec fn named_link(
    entries: Seq<FileEntry>,
    positions: Seq<u32>,
    parent: u64,
    name: Seq<char>,
) -> Option<u32>
    decreases positions.len(),
{
    if positions.len() == 0 {
        None
    } else {
        let e = entry_at(entries, positions[0]);
        if e.parent.0 == parent && e.name@ == name {
            Some(positions[0])
        } else {
            named_link(entries, positions.drop_first(), parent, name)
        }
    }
}

/// The position that a changed record replaces. A record with a single link is
/// that link: a rename, a move and a metadata change all update the same row. Of
/// several links it is the one with the same parent and name; another name is a
/// new link.
pub open spec fn upsert_target(
    entries: Seq<FileEntry>,
    positions: Seq<u32>,
    parent: u64,
    name: Seq<char>,
) -> Option<u32> {
    if positions.len() == 1 {
        Some(positions[0])
    } else {
        named_link(entries, positions, parent, name)
    }
}

/// The position that a changed record replaces.
fn find_target(entries: &Vec<FileEntry>, positions: &Vec<u32>, parent: u64, name: &str) -> (r: Option<
    u32,
>)
    requires
        forall|k: int| 0 <= k < positions@.len() ==> #[trigger] positions@[k] < entries@.len(),
    ensures
        r == upsert_target(entries@, positions@, parent, name@),
        r matches Some(p) ==> positions@.contains(p),
{
    if positions.len() == 1 {
        let p: u32 = positions[0];
        assert(positions@[0] == p);
        return Some(p);
    }
    let mut k: usize = 0;
    assert(positions@.skip(0) =~= positions@);
    while k < positions.len()
        invariant
            k <= positions@.len(),
            positions@.len() != 1,
            forall|k: int| 0 <= k < positions@.len() ==> #[trigger] positions@[k] < entries@.len(),
            named_link(entries@, positions@, parent, name@) == named_link(
                entries@,
                positions@.skip(k as int),
                parent,
                name@,
            ),
        decreases positions@.len() - k,
    {
        let p: u32 = positions[k];
        assert(positions@.skip(k as int)[0] == p);
        assert(positions@.skip(k as int).drop_first() =~= positions@.skip(k + 1));
        assert(positions@[k as int] < entries@.len());
        let e = at(entries, p);
        if e.parent.0 == parent && same_text(e.name.as_str(), name) {
            return Some(p);
        }
        k += 1;
    }
    None
}

/// Whether an index is another one after a change of a record: the entry `e` in the
/// place of its target, or at the end under its record.
pub open spec fn upserted(before: SearchIndex, after: SearchIndex, e: FileEntry) -> bool {
    let record = e.record.0;
    let target = upsert_target(
        before.entries@,
        links(before.by_record@, record),
        e.parent.0,
        e.name@,
    );
    &&& after.drive == before.drive
    &&& after.by_name == before.by_name
    &&& after.name_order_stale
    &&& match target {
        Some(p) => {
            &&& after.entries@ == before.entries@.update(p as int, e)
            &&& after.by_record == before.by_record
        },
        None => {
            &&& after.entries@ == before.entries@.push(e)
            &&& links(after.by_record@, record) == links(before.by_record@, record).push(
                before.entries@.len() as u32,
            )
            &&& forall|r: u64|
                r != record ==> #[trigger] links(after.by_record@, r) == links(before.by_record@, r)
        },
    }
}

impl SearchIndex {
    /// Insert or replace an entry (USN create / rename / metadata change). A record
    /// without a name, or that of the root, changes nothing.
    pub fn apply_upsert(&mut self, r: RawRecord)
        requires
            old(self).wf(),
            old(self).entries@.len() < u32::MAX,
        ensures
            final(self).wf(),
            !is_kept(r@) ==> *final(self) == *old(self),
            is_kept(r@) ==> exists|e: FileEntry| #[trigger]
                taken(e, r@) && upserted(*old(self), *final(self), e),
    {
        let entry = match raw_to_entry(&r) {
            Some(e) => e,
            None => {
                return;
            },
        };
        let ghost e = entry;
        let ghost before = *self;
        let record: u64 = entry.record.0;
        let ghost positions = links(before.by_record@, record);
        let target = match self.by_record.get(&record) {
            None => None,
            Some(p) => {
                assert(p@ == positions);
                assert forall|k: int| 0 <= k < p@.len() implies #[trigger] p@[k]
                    < self.entries@.len() by {
                    assert(links(before.by_record@, record)[k] < before.entries@.len());
                }
                find_target(&self.entries, p, entry.parent.0, entry.name.as_str())
            },
        };
        match target {
            Some(p) => {
                proof {
                    let k = choose|k: int| 0 <= k < positions.len() && positions[k] == p;
                    assert(links(before.by_record@, record)[k] == p);
                    assert(entry_at(before.entries@, p).record.0 == record);
                }
                self.entries.set(p as usize, entry);
                self.name_order_stale = true;
                proof {
                    lemma_replaced(before, *self, p, e);
                }
            },
            None => {
                let position: u32 = self.entries.len() as u32;
                self.entries.push(entry);
                add_position(&mut self.by_record, record, position);
                self.name_order_stale = true;
                proof {
                    lemma_appended(before, *self, e);
                }
            },
        }
        assert(taken(e, r@) && upserted(before, *self, e));
    }
}

proof fn lemma_replaced(before: SearchIndex, after: SearchIndex, p: u32, e: FileEntry)
    requires
        before.wf(),
        p < before.entries@.len(),
        entry_at(before.entries@, p).record.0 == e.record.0,
        e.name_lower@ == text::lower(e.name@),
        after.entries@ == before.entries@.update(p as int, e),
        after.by_record == before.by_record,
        after.name_order_stale,
    ensures
        after.wf(),
{
    let m = after.by_record@;
    assert forall|i: int| 0 <= i < after.entries@.len() implies links(
        m,
        (#[trigger] after.entries@[i]).record.0,
    ).contains(i as u32) by {
        assert(links(m, before.entries@[i].record.0).contains(i as u32));
    }
    assert forall|record: u64, k: int|
        #![trigger links(m, record)[k]]
        0 <= k < links(m, record).len() implies links(m, record)[k] < after.entries@.len()
        && entry_at(after.entries@, links(m, record)[k]).record.0 == record by {
        assert(links(m, record)[k] < before.entries@.len());
        assert(entry_at(before.entries@, links(m, record)[k]).record.0 == record);
    }
}

proof fn lemma_appended(before: SearchIndex, after: SearchIndex, e: FileEntry)
    requires
        before.wf(),
        before.entries@.len() < u32::MAX,
        e.name_lower@ == text::lower(e.name@),
        after.entries@ == before.entries@.push(e),
        after.name_order_stale,
        after.by_record@.contains_key(e.record.0),
        after.by_record@[e.record.0]@ == links(before.by_record@, e.record.0).push(
            before.entries@.len() as u32,
        ),
        after.by_record@.dom() == before.by_record@.dom().insert(e.record.0),
        forall|r: u64|
            r != e.record.0 && #[trigger] after.by_record@.contains_key(r) ==> after.by_record@[r]
                == before.by_record@[r],
    ensures
        after.wf(),
        forall|r: u64|
            r != e.record.0 ==> #[trigger] links(after.by_record@, r) == links(
                before.by_record@,
                r,
            ),
{
    let m = after.by_record@;
    let n = before.entries@.len() as u32;
    let record = e.record.0;
    let old_links = links(before.by_record@, record);
    assert forall|r: u64| r != record implies #[trigger] links(m, r) == links(
        before.by_record@,
        r,
    ) by {
        assert(m.contains_key(r) == before.by_record@.contains_key(r));
    }
    assert forall|i: int| 0 <= i < after.entries@.len() implies links(
        m,
        (#[trigger] after.entries@[i]).record.0,
    ).contains(i as u32) by {
        if i < before.entries@.len() {
            let r = before.entries@[i].record.0;
            assert(links(before.by_record@, r).contains(i as u32));
            if r == record {
                let k = choose|k: int| 0 <= k < old_links.len() && old_links[k] == i as u32;
                assert(links(m, record)[k] == i as u32);
            }
        } else {
            assert(links(m, record)[old_links.len() as int] == n);
        }
    }
    assert forall|r: u64, k: int|
        #![trigger links(m, r)[k]]
        0 <= k < links(m, r).len() implies links(m, r)[k] < after.entries@.len() && entry_at(
        after.entries@,
        links(m, r)[k],
    ).record.0 == r by {
        if r != record || k < old_links.len() {
            assert(links(before.by_record@, r)[k] == links(m, r)[k]);
            assert(links(before.by_record@, r)[k] < before.entries@.len());
            assert(entry_at(before.entries@, links(before.by_record@, r)[k]).record.0 == r);
        }
    }
    assert forall|r: u64| #[trigger] links(m, r).no_duplicates() by {
        assert(links(before.by_record@, r).no_duplicates());
        if r == record {
            assert forall|i: int, j: int|
                0 <= i < links(m, r).len() && 0 <= j < links(m, r).len() && i
                    != j implies links(m, r)[i] != links(m, r)[j] by {
                if i < old_links.len() {
                    assert(links(before.by_record@, r)[i] < before.entries@.len());
                }
                if j < old_links.len() {
                    assert(links(before.by_record@, r)[j] < before.entries@.len());
                }
            }
        }
    }
    assert forall|r: u64| #[trigger] m.contains_key(r) implies m[r]@.len() > 0 by {
        if r != record {
            assert(before.by_record@.contains_key(r));
        }
    }
}

/// The entries after the last one has taken the place `p`.
pub open spec fn swap_removed(entries: Seq<FileEntry>, p: u32) -> Seq<FileEntry> {
    entries.update(p as int, entries.last()).drop_last()
}

/// The entries after those at the positions have been removed, the last position
/// first, each by moving the last entry into its place.
pub open spec fn removed(entries: Seq<FileEntry>, positions: Seq<u32>) -> Seq<FileEntry>
    decreases positions.len(),
{
    if positions.len() == 0 {
        entries
    } else {
        removed(swap_removed(entries, positions.last()), positions.drop_last())
    }
}

/// Whether the positions are those of `from` in ascending order.
pub open spec fn ascending_of(positions: Seq<u32>, from: Seq<u32>) -> bool {
    &&& positions.to_multiset() == from.to_multiset()
    &&& forall|i: int, j: int| 0 <= i < j < positions.len() ==> positions[i] < positions[j]
}

/// Whether an index is another one after a record has been deleted: all its entries
/// are gone, and each link of another record leads to the same entry as before.
pub open spec fn deleted(before: SearchIndex, after: SearchIndex, record: u64) -> bool {
    &&& after.drive == before.drive
    &&& after.by_name == before.by_name
    &&& after.name_order_stale
    &&& exists|positions: Seq<u32>| #[trigger]
        ascending_of(positions, links(before.by_record@, record)) && after.entries@ == removed(
            before.entries@,
            positions,
        )
    &&& links(after.by_record@, record) == Seq::<u32>::empty()
    &&& same_links(before.by_record@, before.entries@, after.by_record@, after.entries@, record)
}

/// Whether each link of a record other than `record` leads to the same entry.
pub open spec fn same_links(
    m: Map<u64, Vec<u32>>,
    entries: Seq<FileEntry>,
    n: Map<u64, Vec<u32>>,
    left: Seq<FileEntry>,
    record: u64,
) -> bool {
    forall|r: u64|
        #![trigger links(n, r)]
        #![trigger links(m, r)]
        r != record ==> links(n, r).len() == links(m, r).len() && (forall|k: int|
            0 <= k < links(n, r).len() ==> entry_at(left, #[trigger] links(n, r)[k]) == entry_at(
                entries,
                links(m, r)[k],
            ))
}

/// Let the position `from` of a record be `to`.
fn relocate(by_record: &mut HashMap<u64, Vec<u32>>, record: u64, from: u32, to: u32)
    ensures
        final(by_record)@.dom() == old(by_record)@.dom(),
        links(final(by_record)@, record) == links(old(by_record)@, record).map_values(
            |p: u32|
                if p == from {
                    to
                } else {
                    p
                },
        ),
        forall|r: u64|
            r != record ==> #[trigger] links(final(by_record)@, r) == links(old(by_record)@, r),
{
    let ghost before = by_record@;
    let ghost f = |p: u32|
        if p == from {
            to
        } else {
            p
        };
    match by_record.remove(&record) {
        Some(v) => {
            let mut v = v;
            let ghost start = v@;
            let mut i: usize = 0;
            while i < v.len()
                invariant
                    i <= v@.len(),
                    v@.len() == start.len(),
                    f == (|p: u32|
                        if p == from {
                            to
                        } else {
                            p
                        }),
                    forall|k: int| 0 <= k < i ==> v@[k] == f(start[k]),
                    forall|k: int| i <= k < v@.len() ==> v@[k] == start[k],
                decreases v@.len() - i,
            {
                if v[i] == from {
                    v.set(i, to);
                }
                i += 1;
            }
            assert(v@ =~= start.map_values(f));
            by_record.insert(record, v);
            assert(by_record@.dom() =~= before.dom());
        },
        None => {
            assert(by_record@ =~= before);
            assert(links(before, record).map_values(f) =~= links(before, record));
        },
    }
}

/// What holds while the entries of a record are being removed, where `left` holds
/// the positions that remain to be removed in ascending order.
spec fn removing(m: Map<u64, Vec<u32>>, entries: Seq<FileEntry>, record: u64, left: Seq<u32>) -> bool {
    &&& entries.len() <= u32::MAX
    &&& lower_names(entries)
    &&& forall|i: int, j: int| 0 <= i < j < left.len() ==> left[i] < left[j]
    &&& forall|k: int|
        0 <= k < left.len() ==> #[trigger] left[k] < entries.len() && entry_at(
            entries,
            left[k],
        ).record.0 == record
    &&& links(m, record) == Seq::<u32>::empty()
    &&& forall|i: int|
        0 <= i < entries.len() ==> if (#[trigger] entries[i]).record.0 == record {
            left.contains(i as u32)
        } else {
            links(m, entries[i].record.0).contains(i as u32)
        }
    &&& forall|r: u64, k: int|
        #![trigger links(m, r)[k]]
        0 <= k < links(m, r).len() ==> links(m, r)[k] < entries.len() && entry_at(
            entries,
            links(m, r)[k],
        ).record.0 == r
    &&& forall|r: u64| #[trigger] links(m, r).no_duplicates()
    &&& forall|r: u64| #[trigger] m.contains_key(r) ==> m[r]@.len() > 0
}

/// One removal: the last entry takes the place of the last position.
proof fn lemma_remove_step(
    m: Map<u64, Vec<u32>>,
    entries: Seq<FileEntry>,
    record: u64,
    left: Seq<u32>,
    n: Map<u64, Vec<u32>>,
)
    requires
        removing(m, entries, record, left),
        left.len() > 0,
        ({
            let p = left.last();
            let last = (entries.len() - 1) as u32;
            let moved = entries.last().record.0;
            if p == last {
                n == m
            } else {
                &&& n.dom() == m.dom()
                &&& links(n, moved) == links(m, moved).map_values(
                    |q: u32|
                        if q == last {
                            p
                        } else {
                            q
                        },
                )
                &&& forall|r: u64| r != moved ==> #[trigger] links(n, r) == links(m, r)
            }
        }),
    ensures
        removing(n, swap_removed(entries, left.last()), record, left.drop_last()),
        same_links(m, entries, n, swap_removed(entries, left.last()), record),
{
    let p = left.last();
    let last = (entries.len() - 1) as u32;
    let moved = entries.last().record.0;
    let after = swap_removed(entries, p);
    let rest = left.drop_last();
    assert(left[left.len() - 1] == p);
    assert(p < entries.len() && entry_at(entries, p).record.0 == record);
    if p != last {
        if moved == record {
            assert(entries[last as int].record.0 == record);
            assert(left.contains(last));
            let k = choose|k: int| 0 <= k < left.len() && left[k] == last;
            assert(k == left.len() - 1 || left[k] < left[left.len() - 1]);
            assert(false);
        }
    }
    // Where each link of another record goes.
    assert forall|r: u64, k: int| r != record && 0 <= k < links(m, r).len() implies #[trigger] links(
        n,
        r,
    )[k] == (if links(m, r)[k] == last && p != last {
        p
    } else {
        links(m, r)[k]
    }) && links(n, r)[k] < after.len() && entry_at(after, links(n, r)[k]) == entry_at(
        entries,
        links(m, r)[k],
    ) by {
        let q = links(m, r)[k];
        assert(q < entries.len() && entry_at(entries, q).record.0 == r);
        assert(q != p);
        if q == last {
            assert(r == moved);
        }
    }
    assert forall|r: u64| r != record implies #[trigger] links(n, r).len() == links(m, r).len() by {}
    assert(links(n, record) == Seq::<u32>::empty()) by {
        if p != last {
            assert(record != moved);
        }
    }
    assert forall|i: int| 0 <= i < after.len() implies if (#[trigger] after[i]).record.0 == record {
        rest.contains(i as u32)
    } else {
        links(n, after[i].record.0).contains(i as u32)
    } by {
        if i == p {
            let ls = links(m, moved);
            assert(entries[last as int].record.0 == moved);
            assert(ls.contains(last));
            let k = choose|k: int| 0 <= k < ls.len() && ls[k] == last;
            assert(links(n, moved)[k] == p);
        } else {
            assert(after[i] == entries[i]);
            let r = entries[i].record.0;
            if r == record {
                assert(left.contains(i as u32));
                let k = choose|k: int| 0 <= k < left.len() && left[k] == i as u32;
                assert(k < rest.len());
                assert(rest[k] == i as u32);
            } else {
                let ls = links(m, r);
                assert(ls.contains(i as u32));
                let k = choose|k: int| 0 <= k < ls.len() && ls[k] == i as u32;
                assert(links(n, r)[k] == i as u32);
            }
        }
    }
    assert forall|r: u64, k: int|
        #![trigger links(n, r)[k]]
        0 <= k < links(n, r).len() implies links(n, r)[k] < after.len() && entry_at(
        after,
        links(n, r)[k],
    ).record.0 == r by {
        if r != record {
            assert(links(n, r).len() == links(m, r).len());
            assert(links(m, r)[k] < entries.len());
            assert(entry_at(entries, links(m, r)[k]).record.0 == r);
        }
    }
    assert forall|k: int| 0 <= k < rest.len() implies #[trigger] rest[k] < after.len() && entry_at(
        after,
        rest[k],
    ).record.0 == record by {
        assert(left[k] < left[left.len() - 1]);
        assert(left[k] < entries.len() && entry_at(entries, left[k]).record.0 == record);
    }
    assert forall|r: u64| #[trigger] links(n, r).no_duplicates() by {
        assert(links(m, r).no_duplicates());
        if r != record {
            assert forall|i: int, j: int|
                0 <= i < links(n, r).len() && 0 <= j < links(n, r).len() && i != j implies links(
                n,
                r,
            )[i] != links(n, r)[j] by {
                assert(links(m, r)[i] != links(m, r)[j]);
                assert(links(m, r)[i] != p && links(m, r)[j] != p) by {
                    assert(entry_at(entries, links(m, r)[i]).record.0 == r);
                    assert(entry_at(entries, links(m, r)[j]).record.0 == r);
                }
            }
        }
    }
    assert forall|r: u64| #[trigger] n.contains_key(r) implies n[r]@.len() > 0 by {
        assert(m.contains_key(r));
        assert(links(m, r).len() > 0);
        assert(links(n, r).len() == n[r]@.len());
        if r == record {
            assert(false);
        }
    }
    assert(lower_names(after)) by {
        assert forall|i: int| 0 <= i < after.len() implies (#[trigger] after[i]).name_lower@
            == text::lower(after[i].name@) by {
            assert(entries[i].name_lower@ == text::lower(entries[i].name@));
            assert(entries[last as int].name_lower@ == text::lower(entries[last as int].name@));
        }
    }
}

proof fn lemma_same_links_trans(
    m: Map<u64, Vec<u32>>,
    a: Seq<FileEntry>,
    n: Map<u64, Vec<u32>>,
    b: Seq<FileEntry>,
    o: Map<u64, Vec<u32>>,
    c: Seq<FileEntry>,
    record: u64,
)
    requires
        same_links(m, a, n, b, record),
        same_links(n, b, o, c, record),
    ensures
        same_links(m, a, o, c, record),
{
    assert forall|r: u64|
        #![trigger links(o, r)]
        #![trigger links(m, r)]
        r != record implies links(o, r).len() == links(m, r).len() && (forall|k: int|
        0 <= k < links(o, r).len() ==> entry_at(c, #[trigger] links(o, r)[k]) == entry_at(
            a,
            links(m, r)[k],
        )) by {
        assert(links(n, r).len() == links(m, r).len());
        assert forall|k: int| 0 <= k < links(o, r).len() implies entry_at(
            c,
            #[trigger] links(o, r)[k],
        ) == entry_at(a, links(m, r)[k]) by {
            assert(entry_at(b, links(n, r)[k]) == entry_at(a, links(m, r)[k]));
        }
    }
}

impl SearchIndex {
    /// Remove an entry (USN delete). Removes **every** link of the record (a
    /// hardlinked file frees its single MFT record on full deletion), repairing
    /// `by_record` for each entry relocated by `swap_remove`. An unknown record
    /// changes nothing.
    pub fn apply_delete(&mut self, record_no: u64)
        requires
            old(self).wf(),
        ensures
            final(self).wf(),
            links(old(self).by_record@, record_no).len() == 0 ==> {
                &&& final(self).entries@ == old(self).entries@
                &&& final(self).by_record@ == old(self).by_record@
                &&& final(self).by_name == old(self).by_name
                &&& final(self).name_order_stale == old(self).name_order_stale
                &&& final(self).drive == old(self).drive
            },
            links(old(self).by_record@, record_no).len() > 0 ==> deleted(
                *old(self),
                *final(self),
                record_no,
            ),
    {
        let ghost before = *self;
        let ghost mapped = links(before.by_record@, record_no);
        let mut positions = match self.by_record.remove(&record_no) {
            None => {
                assert(self.by_record@ =~= before.by_record@);
                return;
            },
            Some(p) => p,
        };
        assert(positions@ == mapped);
        // Remove highest index first so a swap_remove never relocates a position
        // still queued for removal: the entry moved in from the end is always
        // another record's (its index exceeds every remaining position to remove).
        sort_numbers(&mut positions);
        proof {
            assert(mapped.no_duplicates());
            lemma_permuted(mapped, positions@);
            lemma_start_removing(before, self.by_record@, record_no, positions@);
        }
        let ghost sorted = positions@;
        let mut k: usize = positions.len();
        assert(sorted.take(k as int) =~= sorted);
        while k > 0
            invariant
                k <= positions@.len(),
                positions@ == sorted,
                removing(self.by_record@, self.entries@, record_no, sorted.take(k as int)),
                removed(self.entries@, sorted.take(k as int)) == removed(before.entries@, sorted),
                same_links(
                    before.by_record@,
                    before.entries@,
                    self.by_record@,
                    self.entries@,
                    record_no,
                ),
                self.by_name == before.by_name,
                self.drive == before.drive,
            decreases k,
        {
            let ghost left = sorted.take(k as int);
            let ghost m = self.by_record@;
            let ghost entries = self.entries@;
            k -= 1;
            assert(left.drop_last() =~= sorted.take(k as int));
            assert(left[left.len() - 1] == sorted[k as int]);
            let pos: u32 = positions[k];
            let last: u32 = (self.entries.len() - 1) as u32;
            self.entries.swap_remove(pos as usize);
            assert(self.entries@ == swap_removed(entries, pos));
            if pos != last {
                let moved: u64 = self.entries[pos as usize].record.0;
                relocate(&mut self.by_record, moved, last, pos);
            }
            proof {
                lemma_remove_step(m, entries, record_no, left, self.by_record@);
                lemma_same_links_trans(
                    before.by_record@,
                    before.entries@,
                    m,
                    entries,
                    self.by_record@,
                    self.entries@,
                    record_no,
                );
            }
        }
        self.name_order_stale = true;
        proof {
            assert(sorted.take(0) =~= Seq::empty());
            assert(ascending_of(sorted, mapped));
            assert forall|i: int| 0 <= i < self.entries@.len() implies links(
                self.by_record@,
                (#[trigger] self.entries@[i]).record.0,
            ).contains(i as u32) by {
                assert(!sorted.take(0).contains(i as u32));
            }
        }
    }
}

proof fn lemma_start_removing(
    before: SearchIndex,
    m: Map<u64, Vec<u32>>,
    record: u64,
    sorted: Seq<u32>,
)
    requires
        before.wf(),
        m == before.by_record@.remove(record),
        before.by_record@.contains_key(record),
        sorted.no_duplicates(),
        forall|x: u32| #[trigger]
            sorted.contains(x) <==> links(before.by_record@, record).contains(x),
        forall|i: int, j: int| 0 <= i < j < sorted.len() ==> sorted[i] <= sorted[j],
    ensures
        removing(m, before.entries@, record, sorted),
        same_links(before.by_record@, before.entries@, m, before.entries@, record),
{
    let entries = before.entries@;
    let old_map = before.by_record@;
    assert forall|r: u64| r != record implies #[trigger] links(m, r) == links(old_map, r) by {}
    assert forall|k: int| 0 <= k < sorted.len() implies #[trigger] sorted[k] < entries.len()
        && entry_at(entries, sorted[k]).record.0 == record by {
        assert(sorted.contains(sorted[k]));
        let ls = links(old_map, record);
        let j = choose|j: int| 0 <= j < ls.len() && ls[j] == sorted[k];
        assert(links(old_map, record)[j] < entries.len());
    }
    assert forall|i: int, j: int| 0 <= i < j < sorted.len() implies sorted[i] < sorted[j] by {
        assert(sorted[i] != sorted[j]);
    }
    assert forall|i: int| 0 <= i < entries.len() implies if (#[trigger] entries[i]).record.0
        == record {
        sorted.contains(i as u32)
    } else {
        links(m, entries[i].record.0).contains(i as u32)
    } by {
        assert(links(old_map, entries[i].record.0).contains(i as u32));
    }
    assert forall|r: u64, k: int|
        #![trigger links(m, r)[k]]
        0 <= k < links(m, r).len() implies links(m, r)[k] < entries.len() && entry_at(
        entries,
        links(m, r)[k],
    ).record.0 == r by {
        if r != record {
            assert(links(old_map, r)[k] < entries.len());
        }
    }
    assert forall|r: u64| #[trigger] links(m, r).no_duplicates() by {
        assert(links(old_map, r).no_duplicates());
    }
    assert forall|r: u64| #[trigger] m.contains_key(r) implies m[r]@.len() > 0 by {
        assert(old_map.contains_key(r));
    }
}

/// After a delete no entry of the record is left, and exactly the entries of the
/// other records stay, each as often as before.
pub proof fn law_delete(before: SearchIndex, after: SearchIndex, record: u64)
    requires
        before.wf(),
        after.wf(),
        deleted(before, after, record),
    ensures
        forall|i: int|
            0 <= i < after.entries@.len() ==> (#[trigger] after.entries@[i]).record.0 != record,
        forall|i: int|
            0 <= i < before.entries@.len() && (#[trigger] before.entries@[i]).record.0 != record
                ==> after.entries@.contains(before.entries@[i]),
        forall|i: int|
            0 <= i < after.entries@.len() ==> before.entries@.contains(
                #[trigger] after.entries@[i],
            ),
        after.entries@.len() == before.entries@.len() - links(before.by_record@, record).len(),
        after.entries@.to_multiset() == before.entries@.to_multiset().filter(
            |e: FileEntry| e.record.0 != record,
        ),
{
    let m = before.by_record@;
    let n = after.by_record@;
    assert forall|i: int| 0 <= i < after.entries@.len() implies (#[trigger] after.entries@[i]).record.0
        != record by {
        assert(links(n, after.entries@[i].record.0).contains(i as u32));
    }
    assert forall|i: int|
        0 <= i < before.entries@.len() && (#[trigger] before.entries@[i]).record.0
            != record implies after.entries@.contains(before.entries@[i]) by {
        let r = before.entries@[i].record.0;
        assert(links(m, r).contains(i as u32));
        let k = choose|k: int| 0 <= k < links(m, r).len() && links(m, r)[k] == i as u32;
        assert(links(n, r).len() == links(m, r).len());
        assert(entry_at(after.entries@, links(n, r)[k]) == before.entries@[i]);
        assert(links(n, r)[k] < after.entries@.len());
        assert(after.entries@[links(n, r)[k] as int] == before.entries@[i]);
    }
    assert forall|i: int| 0 <= i < after.entries@.len() implies before.entries@.contains(
        #[trigger] after.entries@[i],
    ) by {
        let r = after.entries@[i].record.0;
        assert(links(n, r).contains(i as u32));
        let k = choose|k: int| 0 <= k < links(n, r).len() && links(n, r)[k] == i as u32;
        assert(links(n, r).len() == links(m, r).len());
        assert(entry_at(after.entries@, links(n, r)[k]) == entry_at(
            before.entries@,
            links(m, r)[k],
        ));
        assert(links(m, r)[k] < before.entries@.len());
        assert(before.entries@[links(m, r)[k] as int] == after.entries@[i]);
    }
    let positions = choose|positions: Seq<u32>| #[trigger]
        ascending_of(positions, links(m, record)) && after.entries@ == removed(
            before.entries@,
            positions,
        );
    positions.to_multiset_ensures();
    links(m, record).to_multiset_ensures();
    lemma_permuted(links(m, record), positions);
    assert forall|k: int| 0 <= k < positions.len() implies #[trigger] positions[k]
        < before.entries@.len() by {
        assert(positions.contains(positions[k]));
        let j = choose|j: int| 0 <= j < links(m, record).len() && links(m, record)[j] == positions[k];
        assert(links(m, record)[j] < before.entries@.len());
    }
    lemma_removed_len(before.entries@, positions);
    assert forall|k: int| 0 <= k < positions.len() implies entry_at(
        before.entries@,
        #[trigger] positions[k],
    ).record.0 == record by {
        assert(positions.contains(positions[k]));
        let j = choose|j: int| 0 <= j < links(m, record).len() && links(m, record)[j] == positions[k];
        assert(entry_at(before.entries@, links(m, record)[j]).record.0 == record);
    }
    let kept = before.entries@.to_multiset().filter(|e: FileEntry| e.record.0 != record);
    after.entries@.to_multiset_ensures();
    assert forall|x: FileEntry| after.entries@.to_multiset().count(x) == kept.count(x) by {
        if x.record.0 != record {
            lemma_removed_count(before.entries@, positions, x, record);
        } else if after.entries@.contains(x) {
            let i = choose|i: int| 0 <= i < after.entries@.len() && after.entries@[i] == x;
            assert(after.entries@[i].record.0 != record);
        }
    }
    assert(after.entries@.to_multiset() =~= kept);
}

/// An entry of another record stays as often as it was.
proof fn lemma_removed_count(
    entries: Seq<FileEntry>,
    positions: Seq<u32>,
    x: FileEntry,
    record: u64,
)
    requires
        forall|i: int, j: int| 0 <= i < j < positions.len() ==> positions[i] < positions[j],
        forall|k: int|
            0 <= k < positions.len() ==> #[trigger] positions[k] < entries.len() && entry_at(
                entries,
                positions[k],
            ).record.0 == record,
        x.record.0 != record,
    ensures
        removed(entries, positions).to_multiset().count(x) == entries.to_multiset().count(x),
    decreases positions.len(),
{
    if positions.len() > 0 {
        let rest = positions.drop_last();
        let p = positions.last() as int;
        assert(positions[positions.len() - 1] < entries.len());
        let after = swap_removed(entries, positions.last());
        let front = entries.drop_last();
        let last = entries.last();
        assert(entries =~= front.push(last));
        front.to_multiset_ensures();
        if p < front.len() {
            let gap = front.remove(p);
            assert(after =~= gap.insert(p, last));
            vstd::seq_lib::to_multiset_insert(gap, p, last);
            assert(front[p].record.0 == record);
        } else {
            assert(after =~= front);
        }
        assert forall|k: int| 0 <= k < rest.len() implies #[trigger] rest[k] < after.len()
            && entry_at(after, rest[k]).record.0 == record by {
            assert(positions[k] < positions[positions.len() - 1]);
        }
        lemma_removed_count(after, rest, x, record);
    }
}

proof fn lemma_removed_len(entries: Seq<FileEntry>, positions: Seq<u32>)
    requires
        forall|i: int, j: int| 0 <= i < j < positions.len() ==> positions[i] < positions[j],
        forall|k: int| 0 <= k < positions.len() ==> #[trigger] positions[k] < entries.len(),
    ensures
        removed(entries, positions).len() == entries.len() - positions.len(),
    decreases positions.len(),
{
    if positions.len() > 0 {
        let rest = positions.drop_last();
        let after = swap_removed(entries, positions.last());
        assert forall|k: int| 0 <= k < rest.len() implies #[trigger] rest[k] < after.len() by {
            assert(positions[k] < positions[positions.len() - 1]);
            assert(positions[positions.len() - 1] < entries.len());
        }
        lemma_removed_len(after, rest);
    }
}

/// A change of a record with a single link updates its row and leaves no other: a
/// rename or a move makes no duplicate.
pub proof fn law_upsert_single(before: SearchIndex, after: SearchIndex, e: FileEntry)
    requires
        before.wf(),
        upserted(before, after, e),
        links(before.by_record@, e.record.0).len() == 1,
    ensures
        after.entries@.len() == before.entries@.len(),
        links(after.by_record@, e.record.0) == links(before.by_record@, e.record.0),
        entry_at(after.entries@, links(after.by_record@, e.record.0)[0]) == e,
{
    assert(links(before.by_record@, e.record.0)[0] < before.entries@.len());
}

/// A change of a record never touches a row of another record, nor a link of its own
/// with another parent or name once it has several.
pub proof fn law_upsert_others(before: SearchIndex, after: SearchIndex, e: FileEntry, i: int)
    requires
        before.wf(),
        upserted(before, after, e),
        0 <= i < before.entries@.len(),
        before.entries@[i].record != e.record || (links(before.by_record@, e.record.0).len() > 1
            && (before.entries@[i].parent != e.parent || before.entries@[i].name@ != e.name@)),
    ensures
        i < after.entries@.len(),
        after.entries@[i] == before.entries@[i],
{
    let positions = links(before.by_record@, e.record.0);
    lemma_target(before.entries@, positions, e.parent.0, e.name@);
    if let Some(p) = upsert_target(before.entries@, positions, e.parent.0, e.name@) {
        let k = choose|k: int| 0 <= k < positions.len() && positions[k] == p;
        assert(links(before.by_record@, e.record.0)[k] < before.entries@.len());
        assert(entry_at(before.entries@, positions[k]).record.0 == e.record.0);
    }
}

pub(crate) proof fn lemma_target(
    entries: Seq<FileEntry>,
    positions: Seq<u32>,
    parent: u64,
    name: Seq<char>,
)
    ensures
        upsert_target(entries, positions, parent, name) matches Some(p) ==> positions.contains(p)
            && (positions.len() != 1 ==> entry_at(entries, p).parent.0 == parent && entry_at(
            entries,
            p,
        ).name@ == name),
{
    lemma_named_link(entries, positions, parent, name);
    if positions.len() == 1 {
        assert(positions.contains(positions[0]));
    }
}

proof fn lemma_named_link(
    entries: Seq<FileEntry>,
    positions: Seq<u32>,
    parent: u64,
    name: Seq<char>,
)
    ensures
        named_link(entries, positions, parent, name) matches Some(p) ==> positions.contains(p)
            && entry_at(entries, p).parent.0 == parent && entry_at(entries, p).name@ == name,
    decreases positions.len(),
{
    if positions.len() > 0 {
        assert(positions.contains(positions[0]));
        lemma_named_link(entries, positions.drop_first(), parent, name);
        if let Some(p) = named_link(entries, positions.drop_first(), parent, name) {
            let k = choose|k: int|
                0 <= k < positions.drop_first().len() && positions.drop_first()[k] == p;
            assert(positions[k + 1] == p);
        }
    }
}

/// A change that is applied again leaves the rows as they are: a replay may repeat
/// what the index already holds.
pub proof fn law_upsert_again(
    before: SearchIndex,
    once: SearchIndex,
    twice: SearchIndex,
    row: RawView,
    e: FileEntry,
    f: FileEntry,
)
    requires
        before.wf(),
        once.wf(),
        taken(e, row),
        taken(f, row),
        upserted(before, once, e),
        upserted(once, twice, f),
    ensures
        twice.entries@.len() == once.entries@.len(),
        twice.by_record == once.by_record,
        forall|i: int|
            0 <= i < once.entries@.len() ==> same_entry(
                #[trigger] once.entries@[i],
                twice.entries@[i],
            ),
{
    let record = e.record.0;
    let positions = links(before.by_record@, record);
    let name = e.name@;
    let parent = e.parent.0;
    assert forall|k: int| 0 <= k < positions.len() implies #[trigger] positions[k]
        < before.entries@.len() by {
        assert(links(before.by_record@, record)[k] < before.entries@.len());
    }
    match upsert_target(before.entries@, positions, parent, name) {
        Some(p) => {
            lemma_target(before.entries@, positions, parent, name);
            if positions.len() != 1 {
                lemma_named_kept(before.entries@, positions, e, p);
            }
        },
        None => {
            let q = before.entries@.len() as u32;
            assert(before.entries@.len() < once.entries@.len() <= u32::MAX);
            assert(entry_at(once.entries@, q) == e);
            lemma_named_last(before.entries@, positions, e);
            if positions.len() == 0 {
                assert(links(once.by_record@, record) =~= seq![q]);
            }
        },
    }
}

proof fn lemma_named_kept(entries: Seq<FileEntry>, positions: Seq<u32>, e: FileEntry, p: u32)
    requires
        named_link(entries, positions, e.parent.0, e.name@) == Some(p),
        p < entries.len(),
        forall|k: int| 0 <= k < positions.len() ==> #[trigger] positions[k] < entries.len(),
    ensures
        named_link(entries.update(p as int, e), positions, e.parent.0, e.name@) == Some(p),
    decreases positions.len(),
{
    if positions.len() > 0 && positions[0] != p {
        assert(entry_at(entries.update(p as int, e), positions[0]) == entry_at(
            entries,
            positions[0],
        ));
        assert forall|k: int| 0 <= k < positions.drop_first().len() implies #[trigger] positions.drop_first()[k]
            < entries.len() by {
            assert(positions[k + 1] < entries.len());
        }
        lemma_named_kept(entries, positions.drop_first(), e, p);
    }
}

proof fn lemma_named_last(entries: Seq<FileEntry>, positions: Seq<u32>, e: FileEntry)
    requires
        named_link(entries, positions, e.parent.0, e.name@) is None,
        entries.len() < u32::MAX,
        forall|k: int| 0 <= k < positions.len() ==> #[trigger] positions[k] < entries.len(),
    ensures
        named_link(
            entries.push(e),
            positions.push(entries.len() as u32),
            e.parent.0,
            e.name@,
        ) == Some(entries.len() as u32),
    decreases positions.len(),
{
    let all = positions.push(entries.len() as u32);
    if positions.len() > 0 {
        assert(all.drop_first() =~= positions.drop_first().push(entries.len() as u32));
        assert(entry_at(entries.push(e), positions[0]) == entry_at(entries, positions[0]));
        assert forall|k: int| 0 <= k < positions.drop_first().len() implies #[trigger] positions.drop_first()[k]
            < entries.len() by {
            assert(positions[k + 1] < entries.len());
        }
        lemma_named_last(entries, positions.drop_first(), e);
    }
}

/// The names of the directories above, from the one with the record `parent` up:
/// the first link of each record, up to the root or to a record that is not
/// known. `depth` of them have been walked.
pub open spec fn parents(
    by_record: Map<u64, Vec<u32>>,
    entries: Seq<FileEntry>,
    parent: u64,
    depth: nat,
) -> Seq<Seq<char>>
    decreases MAX_PATH_DEPTH - depth,
{
    if parent == ROOT_RECORD || depth >= MAX_PATH_DEPTH || links(by_record, parent).len() == 0 {
        Seq::empty()
    } else {
        let e = entry_at(entries, links(by_record, parent)[0]);
        seq![e.name@] + parents(by_record, entries, e.parent.0, depth + 1)
    }
}

/// The names from the last to the first, each behind a backslash.
pub open spec fn joined(names: Seq<Seq<char>>) -> Seq<char>
    decreases names.len(),
{
    if names.len() == 0 {
        Seq::empty()
    } else {
        joined(names.drop_first()).push('\\') + names[0]
    }
}

impl SearchIndex {
    /// The absolute path of an entry.
    pub open spec fn path(self, i: u32) -> Seq<char> {
        let e = entry_at(self.entries@, i);
        seq![self.drive, ':'] + joined(
            seq![e.name@] + parents(self.by_record@, self.entries@, e.parent.0, 0),
        )
    }

    /// The first position of a record, when it has one.
    fn first_link(&self, record: u64) -> (r: Option<u32>)
        requires
            self.wf(),
        ensures
            r is Some <==> links(self.by_record@, record).len() > 0,
            r matches Some(p) ==> p == links(self.by_record@, record)[0] && p < self.entries@.len(),
    {
        match self.by_record.get(&record) {
            None => None,
            Some(v) => {
                if v.len() == 0 {
                    return None;
                }
                assert(links(self.by_record@, record)[0] < self.entries@.len());
                Some(v[0])
            },
        }
    }

    /// Reconstruct an entry's absolute path by walking parents to the root.
    pub fn build_path(&self, i: u32) -> (r: String)
        requires
            self.wf(),
            i < self.entries@.len(),
        ensures
            r@ == self.path(i),
    {
        let first = at(&self.entries, i);
        let mut walked: Vec<u32> = Vec::new();
        walked.push(i);
        let ghost names = seq![first.name@];
        let ghost all = names + parents(self.by_record@, self.entries@, first.parent.0, 0);
        let mut parent: u64 = first.parent.0;
        let mut depth: usize = 0;
        let mut going = true;
        while going && parent != ROOT_RECORD && depth < MAX_PATH_DEPTH
            invariant
                self.wf(),
                depth <= MAX_PATH_DEPTH,
                walked@.len() == names.len(),
                walked@.len() > 0,
                forall|k: int|
                    0 <= k < walked@.len() ==> #[trigger] walked@[k] < self.entries@.len()
                        && entry_at(self.entries@, walked@[k]).name@ == names[k],
                going ==> all == names + parents(
                    self.by_record@,
                    self.entries@,
                    parent,
                    depth as nat,
                ),
                !going ==> all == names,
            decreases
                MAX_PATH_DEPTH - depth,
                (if going {
                    1int
                } else {
                    0int
                }),
        {
            match self.first_link(parent) {
                Some(p) => {
                    let e = at(&self.entries, p);
                    walked.push(p);
                    proof {
                        let rest = parents(
                            self.by_record@,
                            self.entries@,
                            e.parent.0,
                            depth as nat + 1,
                        );
                        assert(names + (seq![e.name@] + rest) =~= names.push(e.name@) + rest);
                        names = names.push(e.name@);
                    }
                    parent = e.parent.0;
                    depth += 1;
                },
                None => {
                    assert(names + Seq::<Seq<char>>::empty() =~= names);
                    going = false;
                },
            }
        }
        assert(names + Seq::<Seq<char>>::empty() =~= names);
        assert(all == names);
        let mut path = String::new();
        path.push(self.drive);
        path.push(':');
        let mut k: usize = walked.len();
        assert(names.skip(k as int) =~= Seq::empty());
        assert(path@ =~= seq![self.drive, ':'] + joined(names.skip(k as int)));
        while k > 0
            invariant
                k <= walked@.len(),
                walked@.len() == names.len(),
                forall|k: int|
                    0 <= k < walked@.len() ==> #[trigger] walked@[k] < self.entries@.len()
                        && entry_at(self.entries@, walked@[k]).name@ == names[k],
                path@ == seq![self.drive, ':'] + joined(names.skip(k as int)),
            decreases k,
        {
            k -= 1;
            let ghost before = path@;
            assert(walked@[k as int] < self.entries@.len());
            assert(names.skip(k as int).drop_first() =~= names.skip(k + 1));
            path.push('\\');
            path.append(at(&self.entries, walked[k]).name.as_str());
            assert(path@ =~= seq![self.drive, ':'] + joined(names.skip(k as int)));
        }
        assert(names.skip(0) =~= names);
        path
    }
}

impl SearchIndex {
    /// What a query is held against for the entry at a position.
    pub open spec fn facts(self, i: u32) -> Facts {
        let e = entry_at(self.entries@, i);
        Facts {
            name: e.name@,
            name_lower: e.name_lower@,
            path: self.path(i),
            path_lower: text::lower(self.path(i)),
            is_dir: e.is_dir,
            size: e.size,
            modified_ms: e.modified_ms,
            created_ms: e.created_ms,
            accessed_ms: e.accessed_ms,
            attributes: e.attributes,
        }
    }

    /// The result row of the entry at a position.
    pub open spec fn row(self, i: u32) -> HitView {
        let e = entry_at(self.entries@, i);
        HitView {
            name: e.name@,
            path: self.path(i),
            size: rank::size_of(e) as i64,
            modified: rank::time_of(e.modified_ms) as i64,
            created: rank::time_of(e.created_ms) as i64,
            accessed: rank::time_of(e.accessed_ms) as i64,
            attributes: e.attributes,
            is_dir: e.is_dir,
        }
    }

    /// Whether the entry at `i` has the lesser key of the sort column: the lowercase
    /// path when sorting by path.
    pub open spec fn key_lt(self, sort: SortKey, i: u32, j: u32) -> bool {
        if sort == SortKey::Path {
            text::text_lt(text::lower(self.path(i)), text::lower(self.path(j)))
        } else {
            rank::column_lt(entry_at(self.entries@, i), entry_at(self.entries@, j), sort)
        }
    }

    /// Whether the entry at `i` comes before that at `j` in the results.
    pub open spec fn comes_before(self, opts: SearchOptions, i: u32, j: u32) -> bool {
        rank::grouped_lt(
            entry_at(self.entries@, i).is_dir,
            entry_at(self.entries@, j).is_dir,
            self.key_lt(opts.sort, i, j),
            self.key_lt(opts.sort, j, i),
            opts.ascending,
            opts.folders_first,
        )
    }

    /// Whether the positions stand in the order of the results: none comes before an
    /// earlier one.
    pub open spec fn in_result_order(self, opts: SearchOptions, order: Seq<u32>) -> bool {
        forall|i: int, j: int|
            0 <= i < j < order.len() ==> !self.comes_before(
                opts,
                #[trigger] order[j],
                #[trigger] order[i],
            )
    }

    /// Whether the positions are those of the accepted entries, each once.
    pub open spec fn lists_accepted(self, m: Matcher, order: Seq<u32>) -> bool {
        &&& order.no_duplicates()
        &&& forall|i: u32| #[trigger]
            order.contains(i) <==> i < self.entries@.len() && m.accepts(self.facts(i))
    }

    /// The rows of the first `limit` positions.
    pub open spec fn top_rows(self, order: Seq<u32>, limit: nat) -> Seq<HitView> {
        Seq::new(
            if limit < order.len() {
                limit
            } else {
                order.len()
            },
            |k: int| self.row(order[k]),
        )
    }

    /// Whether a response answers a query with these positions: all the accepted
    /// entries in the asked order, of which the first come back as rows.
    pub open spec fn answered_with(
        self,
        opts: SearchOptions,
        m: Matcher,
        r: SearchResult,
        order: Seq<u32>,
    ) -> bool {
        &&& self.lists_accepted(m, order)
        &&& self.in_result_order(opts, order)
        &&& r.total == order.len()
        &&& crate::hit::rows(r.hits@) == self.top_rows(order, opts.limit as nat)
    }

    /// Whether a response answers a query.
    pub open spec fn answered(self, opts: SearchOptions, m: Matcher, r: SearchResult) -> bool {
        &&& r.took_ms == 0
        &&& r.error is None
        &&& !r.capped
        &&& exists|order: Seq<u32>| self.answered_with(opts, m, r, order)
    }

    /// The order of the results: two entries not both ways, and not coming after is
    /// transitive.
    pub proof fn lemma_result_order(self, opts: SearchOptions, a: u32, b: u32, c: u32)
        ensures
            !(self.comes_before(opts, a, b) && self.comes_before(opts, b, a)),
            !self.comes_before(opts, b, a) && !self.comes_before(opts, c, b) ==> !self.comes_before(
                opts,
                c,
                a,
            ),
    {
        self.lemma_key_order(opts.sort, a, b, c);
        self.lemma_key_order(opts.sort, c, b, a);
    }

    proof fn lemma_key_order(self, sort: SortKey, a: u32, b: u32, c: u32)
        ensures
            !(self.key_lt(sort, a, b) && self.key_lt(sort, b, a)),
            !self.key_lt(sort, b, a) && !self.key_lt(sort, c, b) ==> !self.key_lt(sort, c, a),
    {
        if sort == SortKey::Path {
            rank::lemma_text_order(
                text::lower(self.path(a)),
                text::lower(self.path(b)),
                text::lower(self.path(c)),
            );
        } else {
            rank::lemma_column(
                entry_at(self.entries@, a),
                entry_at(self.entries@, b),
                entry_at(self.entries@, c),
                sort,
            );
        }
    }

    /// Whether the query accepts the entry at a position.
    fn entry_matches(&self, i: u32, matcher: &Matcher) -> (r: bool)
        requires
            self.wf(),
            matcher.honest(),
            i < self.entries@.len(),
        ensures
            r == matcher.accepts(self.facts(i)),
    {
        let e = at(&self.entries, i);
        let (path, path_lower) = if matcher.needs_path() {
            let path = self.build_path(i);
            let lower = lowercase(path.as_str());
            (path, lower)
        } else {
            (String::new(), String::new())
        };
        let view = EntryView {
            name: e.name.as_str(),
            name_lower: e.name_lower.as_str(),
            path: path.as_str(),
            path_lower: path_lower.as_str(),
            is_dir: e.is_dir,
            size: e.size,
            modified_ms: e.modified_ms,
            created_ms: e.created_ms,
            accessed_ms: e.accessed_ms,
            attributes: e.attributes,
        };
        proof {
            if matcher.needs_path {
                assert(view@ =~= self.facts(i));
            } else {
                assert(crate::matcher::same_but_path(view@, self.facts(i)));
                assert(matcher.accepts(view@) == matcher.accepts(self.facts(i)));
            }
        }
        matcher.eval(&view)
    }

    /// The result row of the entry at a position, with its path.
    fn to_hit_with_path(&self, i: u32, path: String) -> (r: Hit)
        requires
            i < self.entries@.len(),
            path@ == self.path(i),
        ensures
            r@ == self.row(i),
    {
        let e = at(&self.entries, i);
        Hit {
            name: e.name.clone(),
            path,
            size: rank::size_key(e),
            modified: rank::time_key(e.modified_ms),
            created: rank::time_key(e.created_ms),
            accessed: rank::time_key(e.accessed_ms),
            attributes: e.attributes,
            is_dir: e.is_dir,
        }
    }

    /// The result row of the entry at a position.
    fn to_hit(&self, i: u32) -> (r: Hit)
        requires
            self.wf(),
            i < self.entries@.len(),
        ensures
            r@ == self.row(i),
    {
        let path = self.build_path(i);
        self.to_hit_with_path(i, path)
    }

    /// The rows of the first `limit` positions.
    fn collect(&self, order: &Vec<u32>, limit: usize) -> (r: Vec<Hit>)
        requires
            self.wf(),
            forall|k: int| 0 <= k < order@.len() ==> #[trigger] order@[k] < self.entries@.len(),
        ensures
            crate::hit::rows(r@) == self.top_rows(order@, limit as nat),
    {
        let mut hits: Vec<Hit> = Vec::new();
        let mut k: usize = 0;
        while k < order.len() && k < limit
            invariant
                self.wf(),
                forall|k: int| 0 <= k < order@.len() ==> #[trigger] order@[k] < self.entries@.len(),
                k <= order@.len(),
                k <= limit,
                hits@.len() == k,
                forall|j: int| 0 <= j < k ==> (#[trigger] hits@[j])@ == self.row(order@[j]),
            decreases order@.len() - k,
        {
            assert(order@[k as int] < self.entries@.len());
            hits.push(self.to_hit(order[k]));
            k += 1;
        }
        assert(crate::hit::rows(hits@) =~= self.top_rows(order@, limit as nat));
        hits
    }

    /// The positions of the accepted entries.
    fn matching(&self, matcher: &Matcher) -> (r: Vec<u32>)
        requires
            self.wf(),
            matcher.honest(),
        ensures
            self.lists_accepted(*matcher, r@),
    {
        if matcher.matches_all() {
            let all = all_positions(self.entries.len());
            assert forall|i: u32| #[trigger] all@.contains(i) <==> i < self.entries@.len()
                && matcher.accepts(self.facts(i)) by {}
            return all;
        }
        let keep = |i: u32| -> (r: bool)
            requires
                i < self.entries@.len(),
            ensures
                r == matcher.accepts(self.facts(i)),
            { self.entry_matches(i, matcher) };
        par_filter(self.entries.len() as u32, keep)
    }

    /// Compare two positions by the order of the results, other than by path.
    fn result_order(&self, opts: &SearchOptions, a: u32, b: u32) -> (o: Ordering)
        requires
            a < self.entries@.len(),
            b < self.entries@.len(),
            opts.sort != SortKey::Path,
        ensures
            order::order_agrees(
                o,
                self.comes_before(*opts, a, b),
                self.comes_before(*opts, b, a),
            ),
    {
        let x = at(&self.entries, a);
        let y = at(&self.entries, b);
        let column = rank::column_order(x, y, opts.sort);
        rank::grouped_order(x.is_dir, y.is_dir, column, opts.ascending, opts.folders_first)
    }

    /// Sort the matched positions by a column other than the path.
    fn rank_by_column(&self, matched: Vec<u32>, opts: &SearchOptions, m: &Matcher) -> (r: Vec<u32>)
        requires
            self.lists_accepted(*m, matched@),
            opts.sort != SortKey::Path,
        ensures
            self.lists_accepted(*m, r@),
            self.in_result_order(*opts, r@),
    {
        let mut ranked = matched;
        let f = |a: &u32, b: &u32| -> (o: Ordering)
            requires
                *a < self.entries@.len(),
                *b < self.entries@.len(),
            ensures
                order::order_agrees(
                    o,
                    self.comes_before(*opts, *a, *b),
                    self.comes_before(*opts, *b, *a),
                ),
            { self.result_order(opts, *a, *b) };
        proof {
            assert forall|a: u32, b: u32, c: u32, o: Ordering, p: Ordering, q: Ordering|
                ranked@.contains(a) && ranked@.contains(b) && ranked@.contains(c)
                    && #[trigger] f.ensures((&a, &b), o) && #[trigger] f.ensures((&b, &c), p)
                    && #[trigger] f.ensures((&a, &c), q) && !(o is Greater) && !(
                p is Greater) implies !(q is Greater) by {
                self.lemma_result_order(*opts, a, b, c);
            }
        }
        par_sort_unstable_by(&mut ranked, f);
        proof {
            lemma_permuted(matched@, ranked@);
            assert forall|i: int, j: int| 0 <= i < j < ranked@.len() implies !self.comes_before(
                *opts,
                #[trigger] ranked@[j],
                #[trigger] ranked@[i],
            ) by {
                assert(order::order_not_after(f, ranked@[i], ranked@[j]));
            }
        }
        ranked
    }
}

/// A position with its path and the lowercase of the path.
struct Keyed {
    position: u32,
    path: String,
    lower: String,
}

impl SearchIndex {
    /// Whether an item holds the path of its position.
    spec fn keyed_well(&self, k: &Keyed) -> bool {
        &&& k.position < self.entries@.len()
        &&& k.path@ == self.path(k.position)
        &&& k.lower@ == text::lower(k.path@)
    }

    /// The path of a position. Folded once per entry, not per comparison.
    fn keyed(&self, i: u32) -> (r: Keyed)
        requires
            self.wf(),
            i < self.entries@.len(),
        ensures
            r.position == i,
            self.keyed_well(&r),
    {
        let path = self.build_path(i);
        let lower = lowercase(path.as_str());
        Keyed { position: i, path, lower }
    }

    /// Compare two positions by the order of the results by path.
    fn path_order(&self, opts: &SearchOptions, a: &Keyed, b: &Keyed) -> (o: Ordering)
        requires
            self.keyed_well(a),
            self.keyed_well(b),
            opts.sort == SortKey::Path,
        ensures
            order::order_agrees(
                o,
                self.comes_before(*opts, a.position, b.position),
                self.comes_before(*opts, b.position, a.position),
            ),
    {
        let column = order::text_order(a.lower.as_str(), b.lower.as_str());
        rank::grouped_order(
            at(&self.entries, a.position).is_dir,
            at(&self.entries, b.position).is_dir,
            column,
            opts.ascending,
            opts.folders_first,
        )
    }

    /// Sort the matched positions by the lowercase of their full paths (built once per
    /// match), so that the order agrees with the case-insensitive name column.
    fn sort_by_path(&self, keyed: Vec<Keyed>, opts: &SearchOptions) -> (r: Vec<Keyed>)
        requires
            opts.sort == SortKey::Path,
            forall|k: int| 0 <= k < keyed@.len() ==> self.keyed_well(&#[trigger] keyed@[k]),
        ensures
            r@.to_multiset() == keyed@.to_multiset(),
            forall|i: int, j: int|
                0 <= i < j < r@.len() ==> !self.comes_before(
                    *opts,
                    (#[trigger] r@[j]).position,
                    (#[trigger] r@[i]).position,
                ),
    {
        let mut ranked = keyed;
        let f = |a: &Keyed, b: &Keyed| -> (o: Ordering)
            requires
                self.keyed_well(a),
                self.keyed_well(b),
            ensures
                order::order_agrees(
                    o,
                    self.comes_before(*opts, a.position, b.position),
                    self.comes_before(*opts, b.position, a.position),
                ),
            { self.path_order(opts, a, b) };
        proof {
            assert forall|a: Keyed| ranked@.contains(a) implies self.keyed_well(&a) by {
                let k = choose|k: int| 0 <= k < ranked@.len() && ranked@[k] == a;
                assert(self.keyed_well(&ranked@[k]));
            }
            assert forall|a: Keyed, b: Keyed, c: Keyed, o: Ordering, p: Ordering, q: Ordering|
                ranked@.contains(a) && ranked@.contains(b) && ranked@.contains(c)
                    && #[trigger] f.ensures((&a, &b), o) && #[trigger] f.ensures((&b, &c), p)
                    && #[trigger] f.ensures((&a, &c), q) && !(o is Greater) && !(
                p is Greater) implies !(q is Greater) by {
                self.lemma_result_order(*opts, a.position, b.position, c.position);
            }
        }
        par_sort_unstable_by(&mut ranked, f);
        proof {
            assert forall|i: int, j: int| 0 <= i < j < ranked@.len() implies !self.comes_before(
                *opts,
                (#[trigger] ranked@[j]).position,
                (#[trigger] ranked@[i]).position,
            ) by {
                assert(order::order_not_after(f, ranked@[i], ranked@[j]));
            }
        }
        ranked
    }

    /// Rank by reconstructed full path, and hand out the positions in that order with
    /// the rows of the first `limit`.
    fn rank_by_path(&self, matched: Vec<u32>, opts: &SearchOptions, m: &Matcher) -> (r: (
        Ghost<Seq<u32>>,
        Vec<Hit>,
    ))
        requires
            self.wf(),
            self.lists_accepted(*m, matched@),
            opts.sort == SortKey::Path,
        ensures
            self.lists_accepted(*m, r.0@),
            self.in_result_order(*opts, r.0@),
            r.0@.len() == matched@.len(),
            crate::hit::rows(r.1@) == self.top_rows(r.0@, opts.limit as nat),
    {
        assert forall|k: int| 0 <= k < matched@.len() implies #[trigger] matched@[k]
            < self.entries@.len() by {
            assert(matched@.contains(matched@[k]));
        }
        let f = |i: &u32| -> (k: Keyed)
            requires
                *i < self.entries@.len(),
            ensures
                k.position == *i,
                self.keyed_well(&k),
            { self.keyed(*i) };
        let keyed = par_map(&matched, f);
        proof {
            assert forall|k: int| 0 <= k < keyed@.len() implies self.keyed_well(&#[trigger] keyed@[k]) && keyed@[k].position == matched@[k] by {
                assert(f.ensures((&matched@[k],), keyed@[k]));
            }
        }
        let ranked = self.sort_by_path(keyed, opts);
        let ghost order = ranked@.map_values(|k: Keyed| k.position);
        proof {
            self.lemma_positions_permuted(matched@, keyed@, ranked@);
        }
        let mut hits: Vec<Hit> = Vec::new();
        let mut k: usize = 0;
        while k < ranked.len() && k < opts.limit
            invariant
                forall|k: int| 0 <= k < ranked@.len() ==> self.keyed_well(&#[trigger] ranked@[k]),
                order == ranked@.map_values(|k: Keyed| k.position),
                k <= ranked@.len(),
                k <= opts.limit,
                hits@.len() == k,
                forall|j: int| 0 <= j < k ==> (#[trigger] hits@[j])@ == self.row(order[j]),
            decreases ranked@.len() - k,
        {
            let item = &ranked[k];
            assert(self.keyed_well(&ranked@[k as int]));
            let path = item.path.clone();
            hits.push(self.to_hit_with_path(item.position, path));
            k += 1;
        }
        assert(crate::hit::rows(hits@) =~= self.top_rows(order, opts.limit as nat));
        assert(self.in_result_order(*opts, order)) by {
            assert forall|i: int, j: int| 0 <= i < j < order.len() implies !self.comes_before(
                *opts,
                #[trigger] order[j],
                #[trigger] order[i],
            ) by {
                assert(order[i] == ranked@[i].position && order[j] == ranked@[j].position);
            }
        }
        (Ghost(order), hits)
    }

    proof fn lemma_positions_permuted(self, matched: Seq<u32>, keyed: Seq<Keyed>, ranked: Seq<Keyed>)
        requires
            matched.no_duplicates(),
            keyed.len() == matched.len(),
            forall|k: int| 0 <= k < keyed.len() ==> #[trigger] self.keyed_well(&keyed[k]),
            forall|k: int| 0 <= k < keyed.len() ==> (#[trigger] keyed[k]).position == matched[k],
            ranked.to_multiset() == keyed.to_multiset(),
        ensures
            ({
                let order = ranked.map_values(|k: Keyed| k.position);
                &&& order.len() == matched.len()
                &&& order.no_duplicates()
                &&& forall|i: u32| #[trigger] order.contains(i) <==> matched.contains(i)
                &&& forall|k: int| 0 <= k < ranked.len() ==> self.keyed_well(&#[trigger] ranked[k])
            }),
    {
        let order = ranked.map_values(|k: Keyed| k.position);
        assert(keyed.no_duplicates()) by {
            assert forall|i: int, j: int|
                0 <= i < keyed.len() && 0 <= j < keyed.len() && i != j implies keyed[i]
                != keyed[j] by {
                assert(keyed[i].position == matched[i] && keyed[j].position == matched[j]);
            }
        }
        lemma_permuted(keyed, ranked);
        assert forall|k: int| 0 <= k < ranked.len() implies self.keyed_well(&#[trigger] ranked[k])
            && exists|j: int| 0 <= j < keyed.len() && #[trigger] keyed[j] == ranked[k] by {
            assert(ranked.contains(ranked[k]));
            assert(keyed.contains(ranked[k]));
            let j = choose|j: int| 0 <= j < keyed.len() && keyed[j] == ranked[k];
            assert(self.keyed_well(&keyed[j]));
        }
        assert forall|i: int, j: int|
            0 <= i < order.len() && 0 <= j < order.len() && i != j implies order[i]
            != order[j] by {
            assert(ranked[i] != ranked[j]);
            let a = choose|a: int| 0 <= a < keyed.len() && #[trigger] keyed[a] == ranked[i];
            let b = choose|b: int| 0 <= b < keyed.len() && #[trigger] keyed[b] == ranked[j];
            assert(a != b);
            assert(keyed[a].position == matched[a] && keyed[b].position == matched[b]);
        }
        assert forall|i: u32| #[trigger] order.contains(i) <==> matched.contains(i) by {
            if order.contains(i) {
                let k = choose|k: int| 0 <= k < order.len() && order[k] == i;
                let a = choose|a: int| 0 <= a < keyed.len() && #[trigger] keyed[a] == ranked[k];
                assert(keyed[a].position == matched[a]);
            }
            if matched.contains(i) {
                let k = choose|k: int| 0 <= k < matched.len() && matched[k] == i;
                assert(keyed[k].position == matched[k]);
                assert(keyed.contains(keyed[k]));
                assert(ranked.contains(keyed[k]));
                let a = choose|a: int| 0 <= a < ranked.len() && ranked[a] == keyed[k];
                assert(order[a] == i);
            }
        }
    }

    /// Run a compiled search and return up to `opts.limit` rows with full paths.
    pub fn search(&self, opts: &SearchOptions, matcher: &Matcher) -> (r: SearchResult)
        requires
            self.wf(),
            matcher.honest(),
        ensures
            self.answered(*opts, *matcher, r),
    {
        // Fast path: no constraints, default name-ascending order: just slice the
        // precomputed sorted view without touching every entry.
        if matcher.matches_all() && opts.sort == SortKey::Name && opts.ascending
            && !opts.folders_first && !self.name_order_stale {
            let hits = self.collect(&self.by_name, opts.limit);
            let r = SearchResult {
                total: self.entries.len(),
                took_ms: 0,
                hits,
                error: None,
                capped: false,
            };
            proof {
                lemma_lists_all(self.by_name@, self.entries@.len());
                assert(self.answered_with(*opts, *matcher, r, self.by_name@));
            }
            return r;
        }
        let matched = self.matching(matcher);
        let total: usize = matched.len();
        if opts.sort == SortKey::Path {
            let (Ghost(order), hits) = self.rank_by_path(matched, opts, matcher);
            let r = SearchResult { total, took_ms: 0, hits, error: None, capped: false };
            assert(self.answered_with(*opts, *matcher, r, order));
            return r;
        }
        let ranked = self.rank_by_column(matched, opts, matcher);
        proof {
            self.lemma_same_len(*matcher, matched@, ranked@);
            assert forall|k: int| 0 <= k < ranked@.len() implies #[trigger] ranked@[k]
                < self.entries@.len() by {
                assert(ranked@.contains(ranked@[k]));
            }
        }
        let hits = self.collect(&ranked, opts.limit);
        let r = SearchResult { total, took_ms: 0, hits, error: None, capped: false };
        assert(self.answered_with(*opts, *matcher, r, ranked@));
        r
    }

    proof fn lemma_same_len(self, m: Matcher, a: Seq<u32>, b: Seq<u32>)
        requires
            self.lists_accepted(m, a),
            self.lists_accepted(m, b),
        ensures
            a.len() == b.len(),
    {
        a.unique_seq_to_set();
        b.unique_seq_to_set();
        assert(a.to_set() =~= b.to_set()) by {
            assert forall|x: u32| a.to_set().contains(x) <==> b.to_set().contains(x) by {
                assert(a.contains(x) <==> b.contains(x));
            }
        }
    }
}

/// A list of every position below `count` holds each.
proof fn lemma_lists_all(order: Seq<u32>, count: nat)
    requires
        lists_all(order, count),
        count <= u32::MAX,
    ensures
        forall|i: u32| #[trigger] order.contains(i) <==> i < count,
{
    let all = Set::new(|i: u32| i < count);
    order.unique_seq_to_set();
    assert(order.to_set().subset_of(all)) by {
        assert forall|i: u32| order.to_set().contains(i) implies all.contains(i) by {
            let k = choose|k: int| 0 <= k < order.len() && order[k] == i;
            assert(order[k] < count);
        }
    }
    lemma_below(count);
    vstd::set_lib::lemma_subset_equality(order.to_set(), all);
    assert forall|i: u32| #[trigger] order.contains(i) <==> i < count by {
        assert(order.to_set().contains(i) <==> all.contains(i));
    }
}

/// There are `count` positions below `count`.
proof fn lemma_below(count: nat)
    requires
        count <= u32::MAX,
    ensures
        Set::new(|i: u32| i < count).finite(),
        Set::new(|i: u32| i < count).len() == count,
    decreases count,
{
    let all = Set::new(|i: u32| i < count);
    if count == 0 {
        assert(all =~= Set::empty());
    } else {
        let before = Set::new(|i: u32| i < count - 1);
        lemma_below((count - 1) as nat);
        assert(before =~= Set::new(|i: u32| i < (count - 1) as nat));
        assert(all =~= before.insert((count - 1) as u32));
    }
}

/// The records that give an entry, in order.
pub open spec fn kept_rows(rows: Seq<RawView>) -> Seq<RawView>
    decreases rows.len(),
{
    if rows.len() == 0 {
        Seq::empty()
    } else if is_kept(rows.last()) {
        kept_rows(rows.drop_last()).push(rows.last())
    } else {
        kept_rows(rows.drop_last())
    }
}

/// Whether the entries are what the records become, in order.
pub open spec fn all_taken(entries: Seq<FileEntry>, rows: Seq<RawView>) -> bool {
    &&& entries.len() == rows.len()
    &&& forall|i: int| 0 <= i < entries.len() ==> taken(#[trigger] entries[i], rows[i])
}

impl SearchIndex {
    /// Build the index of a volume from its records, publishing the running entry
    /// count into `progress` for the status bar.
    pub fn from_records(drive: char, records: &Vec<RawRecord>, progress: &AtomicUsize) -> (r: Self)
        requires
            records@.len() <= u32::MAX,
        ensures
            r.wf(),
            r.drive == drive,
            !r.name_order_stale,
            all_taken(r.entries@, kept_rows(indexer::raw_views(records@))),
            maps_in_order(r.by_record@, r.entries@),
    {
        let ghost rows = indexer::raw_views(records@);
        let mut entries: Vec<FileEntry> = Vec::new();
        let mut i: usize = 0;
        while i < records.len()
            invariant
                i <= records@.len(),
                rows == indexer::raw_views(records@),
                entries@.len() <= i,
                all_taken(entries@, kept_rows(rows.take(i as int))),
            decreases records@.len() - i,
        {
            assert(rows.take(i + 1).drop_last() =~= rows.take(i as int));
            assert(rows.take(i + 1).last() == records@[i as int]@);
            let ghost before = entries@;
            if let Some(entry) = raw_to_entry(&records[i]) {
                entries.push(entry);
                if entries.len() % 0x4000 == 0 {
                    publish(progress, entries.len());
                }
            }
            proof {
                let now = kept_rows(rows.take(i + 1));
                assert forall|k: int| 0 <= k < entries@.len() implies taken(
                    #[trigger] entries@[k],
                    now[k],
                ) by {
                    if k < before.len() {
                        assert(taken(before[k], kept_rows(rows.take(i as int))[k]));
                    }
                }
            }
            i += 1;
        }
        assert(rows.take(i as int) =~= rows);
        publish(progress, entries.len());
        Self::finalize(entries, drive)
    }

    /// Build the index of a volume from its listing, publishing the running entry count
    /// into `progress`. Fails as the listing did, and when there are more records than
    /// positions.
    pub fn from_listing(
        drive: char,
        listed: IndexResult<Vec<RawRecord>>,
        progress: &AtomicUsize,
    ) -> (r: IndexResult<Self>)
        ensures
            built(drive, listed, r),
    {
        match listed {
            Ok(records) => {
                if records.len() as u64 > u32::MAX as u64 {
                    return Err(too_many(drive));
                }
                Ok(Self::from_records(drive, &records, progress))
            },
            Err(e) => Err(e),
        }
    }

    /// Build the index from every record of `enumerator`, publishing the running entry
    /// count into `progress`. The outcome is that of a listing which the enumerator
    /// gives, for the drive that it names.
    pub fn build_from<E: VolumeEnumerator>(enumerator: &mut E, progress: &AtomicUsize) -> (r:
        IndexResult<Self>)
        ensures
            exists|drive: char, listed: IndexResult<Vec<RawRecord>>, m: &mut E|
                #![trigger call_ensures(E::drive, (&*old(enumerator),), drive), call_ensures(
                    E::enumerate,
                    (m,),
                    listed,
                )]
                call_ensures(E::drive, (&*old(enumerator),), drive) && call_ensures(
                    E::enumerate,
                    (m,),
                    listed,
                ) && *m == *old(enumerator) && *final(m) == *final(enumerator) && built(
                    drive,
                    listed,
                    r,
                ),
    {
        let drive = enumerator.drive();
        let listed = enumerator.enumerate();
        Self::from_listing(drive, listed, progress)
    }
}

/// Whether `r` is the index that the listing `listed` of the volume `drive` gives, or
/// the error in its place.
pub open spec fn built(
    drive: char,
    listed: IndexResult<Vec<RawRecord>>,
    r: IndexResult<SearchIndex>,
) -> bool {
    match listed {
        Err(e) => r matches Err(f) && f == e,
        Ok(records) => if records@.len() > u32::MAX {
            r matches Err(IndexError::Malformed { volume, detail }) && volume@ == seq![drive, ':']
                && detail@ == "too many records"@
        } else {
            r matches Ok(index) && index.wf() && index.drive == drive && !index.name_order_stale
                && all_taken(index.entries@, kept_rows(indexer::raw_views(records@)))
                && maps_in_order(index.by_record@, index.entries@)
        },
    }
}

/// The error of a volume with more records than positions.
fn too_many(drive: char) -> (r: IndexError)
    ensures
        r matches IndexError::Malformed { volume, detail } && volume@ == seq![drive, ':'] && detail@
            == "too many records"@,
{
    let mut volume = String::new();
    volume.push(drive);
    volume.push(':');
    assert(volume@ =~= seq![drive, ':']);
    let mut detail = String::new();
    detail.append("too many records");
    assert(detail@ =~= "too many records"@);
    IndexError::Malformed { volume, detail }
}

/// Publish the running entry count.
fn publish(progress: &AtomicUsize, count: usize) {
    progress.store(count, std::sync::atomic::Ordering::Relaxed);
}

} // verus!
