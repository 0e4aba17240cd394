//! Laws of the change journal: what the bits and bytes of its records report.

use crate::byte_laws;
use crate::content;
use crate::entry::FileEntry;
use crate::index;
use crate::index::SearchIndex;
use crate::indexer::{RawRecord, RawView};
use crate::mft::RecordMeta;
use crate::mft_laws;
use crate::usn;
use crate::usn::{CatchUp, Event, EventView, JournalState, Replay, ReplayStep, Watch};
use vstd::prelude::*;

verus! {

/// The reasons of the journal record at `p`, one bit each.
pub open spec fn reasons(b: Seq<u8>, p: int) -> u32 {
    byte_laws::four(b, p + 40) as u32
}

/// Whether a change was closed, so that the record reports it.
pub open spec fn closes(b: Seq<u8>, p: int) -> bool {
    reasons(b, p) & 0x8000_0000 != 0
}

/// The record number of the reference at `o`: its low 48 bits.
pub open spec fn reference_number(b: Seq<u8>, o: int) -> int {
    byte_laws::four(b, o) + 0x1_0000_0000 * byte_laws::two(b, o + 4)
}

/// The name of the journal record at `p`, whose length in bytes and whose place it
/// says.
pub open spec fn journal_name(b: Seq<u8>, p: int) -> Seq<char> {
    let n = byte_laws::two(b, p + 56) / 2;
    let at = p + byte_laws::two(b, p + 58);
    content::utf16_text(Seq::new(n as nat, |i: int| byte_laws::two(b, at + 2 * i) as u16))
}

/// What a closed change reports: a deletion when the delete bit is among the reasons,
/// whatever the other bits are, and else, so after a rename too, the name and the
/// parent that the record holds. A change that is not closed reports nothing.
pub proof fn law_event(b: Seq<u8>, p: int)
    requires
        0 <= p,
        p + 60 <= b.len(),
    ensures
        usn::event_at(b, p) is None <==> !closes(b, p),
        closes(b, p) && reasons(b, p) & 0x200 != 0 ==> usn::event_at(b, p) == Some(
            EventView::Delete(reference_number(b, p + 8) as u64),
        ),
        closes(b, p) && reasons(b, p) & 0x200 == 0 ==> (usn::event_at(b, p) matches Some(
            EventView::Upsert(raw, seq),
        ) && {
            &&& raw.record_no == reference_number(b, p + 8)
            &&& seq == byte_laws::two(b, p + 14)
            &&& raw.parent_no == reference_number(b, p + 16)
            &&& raw.is_dir == (byte_laws::four(b, p + 52) as u32 & 0x10 != 0)
            &&& raw.attributes == byte_laws::four(b, p + 52)
            &&& raw.modified_ft == byte_laws::eight(b, p + 32)
            &&& raw.created_ft == 0 && raw.accessed_ft == 0 && raw.size is None
            &&& ({
                let len = byte_laws::two(b, p + 56);
                let at = p + byte_laws::two(b, p + 58);
                if len % 2 == 0 && at + len <= b.len() {
                    raw.name == journal_name(b, p)
                } else {
                    at + len > b.len() ==> raw.name.len() == 0
                }
            })
        }),
{
    byte_laws::law_low_byte_first(b, p + 8);
    byte_laws::law_low_byte_first(b, p + 16);
    byte_laws::law_low_byte_first(b, p + 32);
    byte_laws::law_low_byte_first(b, p + 40);
    byte_laws::law_low_byte_first(b, p + 52);
    byte_laws::law_low_byte_first(b, p + 56);
    byte_laws::law_low_byte_first(b, p + 58);
    let r = reasons(b, p);
    let a = byte_laws::four(b, p + 52) as u32;
    assert(r & 0x8000_0000 != 0 <==> r >= 0x8000_0000) by (bit_vector);
    assert(r & 0x200 != 0 <==> r / 0x200 % 2 == 1) by (bit_vector);
    assert(a & 0x10 != 0 <==> a / 16 % 2 == 1) by (bit_vector);
    let lo = reference_number(b, p + 8);
    let hi = byte_laws::two(b, p + 14);
    assert(byte_laws::eight(b, p + 8) == lo + 0x1_0000_0000_0000 * hi);
    assert(byte_laws::eight(b, p + 8) % 0x1_0000_0000_0000 == lo);
    assert(byte_laws::eight(b, p + 8) / 0x1_0000_0000_0000 == hi);
    let plo = reference_number(b, p + 16);
    let phi = byte_laws::two(b, p + 22);
    assert(byte_laws::eight(b, p + 16) == plo + 0x1_0000_0000_0000 * phi);
    assert(byte_laws::eight(b, p + 16) % 0x1_0000_0000_0000 == plo);
    let len = byte_laws::two(b, p + 56);
    let at = p + byte_laws::two(b, p + 58);
    if len % 2 == 0 && at + len <= b.len() {
        let s = b.subrange(at, at + len);
        mft_laws::lemma_units(s);
        let all = Seq::new((len / 2) as nat, |i: int| byte_laws::two(b, at + 2 * i) as u16);
        assert(content::units(s, true) =~= all);
        if len == 0 {
            assert(all =~= Seq::empty());
        }
    }
}

/// Whether the records of a journal buffer stand at `offs`, one behind the other from
/// `first` to the end: each says in its first four bytes how long it is.
pub open spec fn journal_laid_out(b: Seq<u8>, offs: Seq<int>, first: int) -> bool
    decreases offs.len(),
{
    if offs.len() == 0 {
        first == b.len()
    } else {
        let next = first + byte_laws::four(b, first);
        &&& offs[0] == first
        &&& 0 <= first
        &&& first + 60 <= next <= b.len()
        &&& journal_laid_out(b, offs.drop_first(), next)
    }
}

/// The records that report a change, in order.
pub open spec fn reporting(b: Seq<u8>, offs: Seq<int>) -> Seq<int>
    decreases offs.len(),
{
    if offs.len() == 0 {
        Seq::empty()
    } else if closes(b, offs[0]) {
        seq![offs[0]] + reporting(b, offs.drop_first())
    } else {
        reporting(b, offs.drop_first())
    }
}

proof fn lemma_events(b: Seq<u8>, offs: Seq<int>, first: int)
    requires
        journal_laid_out(b, offs, first),
        0 <= first,
    ensures
        usn::events_from(b, first).len() == reporting(b, offs).len(),
        forall|j: int|
            0 <= j < reporting(b, offs).len() ==> #[trigger] usn::event_at(b, reporting(b, offs)[j])
                == Some(usn::events_from(b, first)[j]) && 0 <= reporting(b, offs)[j]
                && reporting(b, offs)[j] + 60 <= b.len(),
    decreases offs.len(),
{
    if offs.len() > 0 {
        byte_laws::law_low_byte_first(b, first);
        let next = first + byte_laws::four(b, first);
        let rest = offs.drop_first();
        lemma_events(b, rest, next);
        law_event(b, first);
        let all = reporting(b, offs);
        assert forall|j: int| 0 <= j < all.len() implies #[trigger] usn::event_at(b, all[j])
            == Some(usn::events_from(b, first)[j]) && 0 <= all[j] && all[j] + 60 <= b.len() by {
            if closes(b, first) {
                if j > 0 {
                    assert(all[j] == reporting(b, rest)[j - 1]);
                    assert(usn::event_at(b, reporting(b, rest)[j - 1]) is Some);
                }
            }
        }
    }
}

/// A journal buffer, after its first eight bytes, gives one event for each record that
/// closes a change, in their order.
pub proof fn law_journal(buf: &[u8], r: Vec<Event>, offs: Seq<int>)
    requires
        call_ensures(usn::parse_records, (buf,), r),
        buf@.len() >= 8,
        journal_laid_out(buf@, offs, 8),
    ensures
        r@.len() == reporting(buf@, offs).len(),
        forall|j: int|
            0 <= j < r@.len() ==> usn::event_at(buf@, reporting(buf@, offs)[j]) == Some(
                (#[trigger] r@[j])@,
            ),
{
    lemma_events(buf@, offs, 8);
    let views = usn::event_views(r@);
    assert(views.len() == r@.len());
    assert forall|j: int| 0 <= j < r@.len() implies usn::event_at(buf@, reporting(buf@, offs)[j])
        == Some((#[trigger] r@[j])@) by {
        assert(views[j] == r@[j]@);
    }
}

/// What an event shows is what it holds.
pub proof fn law_event_shown(e: Event)
    ensures
        e matches Event::Delete(n) ==> e@ == EventView::Delete(n),
        e matches Event::Upsert(raw, seq) ==> (e@ matches EventView::Upsert(v, s) && s == seq && {
            &&& v.record_no == raw.record_no
            &&& v.parent_no == raw.parent_no
            &&& v.name == raw.name@
            &&& v.is_dir == raw.is_dir
            &&& v.size == raw.size
            &&& v.modified_ft == raw.modified_ft
            &&& v.created_ft == raw.created_ft
            &&& v.accessed_ft == raw.accessed_ft
            &&& v.attributes == raw.attributes
        }),
{
}

/// A re-read adds size, times and attributes to a change and leaves its record, parent,
/// name and kind; without one the change stays as it is. A directory has no size.
pub proof fn law_enriched(raw: RawRecord, meta: Option<RecordMeta>, r: RawRecord)
    requires
        call_ensures(usn::enrich, (raw, meta), r),
    ensures
        r.record_no == raw.record_no,
        r.parent_no == raw.parent_no,
        r.name@ == raw.name@,
        r.is_dir == raw.is_dir,
        meta matches Some(m) ==> {
            &&& r.size == if raw.is_dir {
                None
            } else {
                m.size
            }
            &&& r.modified_ft == m.modified_ft
            &&& r.created_ft == m.created_ft
            &&& r.accessed_ft == m.accessed_ft
            &&& r.attributes == m.attributes
        },
        meta is None ==> {
            &&& r.size == raw.size
            &&& r.modified_ft == raw.modified_ft
            &&& r.created_ft == raw.created_ft
            &&& r.accessed_ft == raw.accessed_ft
            &&& r.attributes == raw.attributes
        },
{
    let (v, w) = (raw@, r@);
    assert(w.record_no == r.record_no && v.record_no == raw.record_no);
}

/// After a deletion no entry of its record is left.
pub proof fn law_deletion_shows(
    before: SearchIndex,
    after: SearchIndex,
    n: u64,
    meta: Option<RecordMeta>,
    i: int,
)
    requires
        before.wf(),
        after.wf(),
        usn::event_applied(before, after, EventView::Delete(n), meta),
        0 <= i < after.entries@.len(),
    ensures
        after.entries@[i].record.0 != n,
{
    if index::links(before.by_record@, n).len() > 0 {
        index::law_delete(before, after, n);
    } else {
        let r = before.entries@[i].record.0;
        assert(index::links(before.by_record@, r).contains(i as u32));
    }
}

/// After a change of a file its record has an entry with the parent and the name that
/// the change reported.
pub proof fn law_change_shows(
    before: SearchIndex,
    after: SearchIndex,
    raw: RawView,
    seq: u16,
    meta: Option<RecordMeta>,
)
    requires
        before.wf(),
        usn::event_applied(before, after, EventView::Upsert(raw, seq), meta),
        raw.name.len() > 0,
        raw.record_no != 5,
    ensures
        exists|i: int|
            0 <= i < after.entries@.len() && {
                let e: FileEntry = #[trigger] after.entries@[i];
                e.record.0 == raw.record_no && e.parent.0 == raw.parent_no && e.name@ == raw.name
                    && e.is_dir == raw.is_dir
            },
{
    let row = usn::enriched(raw, meta);
    assert(index::is_kept(row));
    let e = choose|e: FileEntry| #[trigger]
        index::taken(e, row) && index::upserted(before, after, e);
    assert(index::taken(e, row));
    let positions = index::links(before.by_record@, e.record.0);
    match index::upsert_target(before.entries@, positions, e.parent.0, e.name@) {
        Some(p) => {
            index::lemma_target(before.entries@, positions, e.parent.0, e.name@);
            let k = choose|k: int| 0 <= k < positions.len() && positions[k] == p;
            assert(positions[k] < before.entries@.len());
            assert(after.entries@[p as int] == e);
        },
        None => {
            assert(after.entries@[before.entries@.len() as int] == e);
        },
    }
}

/// The journal's state lies in the report as its number, the next number and the lowest
/// valid number, at 0, 16 and 24.
pub proof fn law_journal_state(data: &[u8], r: Option<JournalState>)
    requires
        call_ensures(usn::journal_state, (data,), r),
    ensures
        r is Some <==> data@.len() >= 32,
        r matches Some(s) ==> {
            &&& s.journal_id == byte_laws::eight(data@, 0)
            &&& (s.next_usn - byte_laws::eight(data@, 16)) % 0x1_0000_0000_0000_0000 == 0
            &&& (s.lowest_valid_usn - byte_laws::eight(data@, 24)) % 0x1_0000_0000_0000_0000 == 0
        },
{
    if data@.len() >= 32 {
        byte_laws::law_low_byte_first(data@, 0);
        byte_laws::law_low_byte_first(data@, 16);
        byte_laws::law_low_byte_first(data@, 24);
    }
}

/// A replay is trusted exactly when the journal is the snapshot's and still holds its
/// position; it then runs from there to where the journal ended.
pub proof fn law_replay_trusted(state: Option<JournalState>, id: u64, from: i64, r: Option<Replay>)
    requires
        call_ensures(Replay::start, (state, id, from), r),
    ensures
        state is None ==> r is None,
        state matches Some(s) ==> {
            &&& s.journal_id != id || from < s.lowest_valid_usn ==> r is None
            &&& s.journal_id == id && from >= s.lowest_valid_usn ==> (r matches Some(p)
                && p.journal_id == id && p.cursor == from && p.end == s.next_usn)
        },
{
}

/// A replay reads from its cursor until that reaches the end, where it has caught up.
pub proof fn law_replay_step(p: Replay, r: ReplayStep)
    requires
        call_ensures(Replay::step, (&p,), r),
    ensures
        p.cursor < p.end ==> (r matches ReplayStep::Read { journal_id, start_usn } && journal_id
            == p.journal_id && start_usn == p.cursor),
        p.cursor >= p.end ==> (r matches ReplayStep::Done(CatchUp::Caught { next_usn }) && next_usn
            == p.cursor),
{
}

/// After a read that gave a higher number a replay stands there; otherwise it stays.
pub proof fn law_replay_advance(p: Replay, n: i64)
    ensures
        p.advanced(n).cursor == if n > p.cursor {
            n
        } else {
            p.cursor
        },
        p.advanced(n).end == p.end && p.advanced(n).journal_id == p.journal_id,
{
}

/// A watcher starts at the resume point, or at the journal's end without one.
pub proof fn law_watch_start(state: JournalState, start: Option<i64>, r: Watch)
    requires
        call_ensures(Watch::start, (state, start), r),
    ensures
        r.journal_id == state.journal_id,
        start matches Some(u) ==> r.next_usn == u,
        start is None ==> r.next_usn == state.next_usn,
{
}

} // verus!
