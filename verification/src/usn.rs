//! The NTFS USN change journal: what its records say happened, and the decisions
//! of replaying it onto a loaded index and of tailing it live.

use crate::bytes;
use crate::bytes::{copy_part, read_i64, read_u16, read_u32, read_u64};
use crate::content;
use crate::content::decode_utf16;
use crate::entry::FileEntry;
use crate::index;
use crate::index::SearchIndex;
use crate::indexer::{RawRecord, RawView};
use crate::mft;
use crate::mft::RecordMeta;
use vstd::prelude::*;

verus! {

/// A snapshot of a volume's USN journal position, used to resume after a load.
#[derive(Debug, Clone, Copy, PartialEq, Eq, Structural)]
pub struct JournalState {
    pub journal_id: u64,
    pub next_usn: i64,
    pub lowest_valid_usn: i64,
}

/// The signed 64-bit value at `off`.
pub open spec fn i64_at(b: Seq<u8>, off: int) -> int {
    bytes::signed(bytes::le_at(b, off, 8) as int, 0x1_0000_0000_0000_0000)
}

/// Read a volume's journal id and current end position off the journal data that
/// the volume reports: the id, the first, the next and the lowest valid number,
/// eight bytes each. `None` when the report is cut off.
pub fn journal_state(data: &[u8]) -> (r: Option<JournalState>)
    ensures
        r is Some <==> data@.len() >= 32,
        r matches Some(s) ==> s.journal_id == mft::u64_at(data@, 0) && s.next_usn == i64_at(
            data@,
            16,
        ) && s.lowest_valid_usn == i64_at(data@, 24),
{
    if data.len() < 32 {
        return None;
    }
    Some(
        JournalState {
            journal_id: read_u64(data, 0),
            next_usn: read_i64(data, 16),
            lowest_valid_usn: read_i64(data, 24),
        },
    )
}

/// A change that the journal reports.
pub enum Event {
    /// A file was created, renamed or changed; with the sequence number of its
    /// record.
    Upsert(RawRecord, u16),
    /// The file of this record is gone.
    Delete(u64),
}

/// What an [`Event`] says.
#[verifier::ext_equal]
pub enum EventView {
    Upsert(RawView, u16),
    Delete(u64),
}

impl View for Event {
    type V = EventView;

    open spec fn view(&self) -> EventView {
        match self {
            Event::Upsert(raw, seq) => EventView::Upsert(raw@, *seq),
            Event::Delete(n) => EventView::Delete(*n),
        }
    }
}

/// What the events say, in order.
pub open spec fn event_views(events: Seq<Event>) -> Seq<EventView> {
    events.map_values(|e: Event| e@)
}

/// The name in the journal record at `p`; empty when it is cut off.
pub open spec fn event_name(b: Seq<u8>, p: int) -> Seq<char> {
    let len = mft::u16_at(b, p + 56);
    let start = p + mft::u16_at(b, p + 58);
    if len > 0 && start + len <= b.len() {
        content::utf16_text(content::units(b.subrange(start, start + len), true))
    } else {
        Seq::empty()
    }
}

/// What the journal record at `p` reports: only the final (close) event of a
/// change counts. A reference holds the record number in its low 48 bits and the
/// sequence number above.
pub open spec fn event_at(b: Seq<u8>, p: int) -> Option<EventView> {
    let reference = mft::u64_at(b, p + 8);
    let reason = mft::u32_at(b, p + 40);
    let attributes = mft::u32_at(b, p + 52);
    if reason < 0x8000_0000 {
        None
    } else if reason / 0x200 % 2 == 1 {
        Some(EventView::Delete((reference % 0x1_0000_0000_0000) as u64))
    } else {
        Some(
            EventView::Upsert(
                RawView {
                    record_no: (reference % 0x1_0000_0000_0000) as u64,
                    parent_no: (mft::u64_at(b, p + 16) % 0x1_0000_0000_0000) as u64,
                    name: event_name(b, p),
                    is_dir: attributes / 16 % 2 == 1,
                    size: None,
                    modified_ft: mft::u64_at(b, p + 32) as u64,
                    created_ft: 0,
                    accessed_ft: 0,
                    attributes: attributes as u32,
                },
                (reference / 0x1_0000_0000_0000) as u16,
            ),
        )
    }
}

/// One event, or none.
pub open spec fn one(e: Option<EventView>) -> Seq<EventView> {
    match e {
        Some(x) => seq![x],
        None => Seq::empty(),
    }
}

/// What the journal records from `p` on report. They end at one that is cut off.
pub open spec fn events_from(b: Seq<u8>, p: int) -> Seq<EventView>
    decreases
        (if p < b.len() {
            b.len() - p
        } else {
            0
        }),
{
    let len = mft::u32_at(b, p);
    if p + 60 > b.len() || len < 60 || p + len > b.len() {
        Seq::empty()
    } else {
        one(event_at(b, p)) + events_from(b, p + len)
    }
}

/// The name in the journal record at `p`; empty when it is cut off.
fn read_name(b: &[u8], p: usize) -> (r: String)
    requires
        p + 60 <= b@.len(),
    ensures
        r@ == event_name(b@, p as int),
{
    let size: usize = b.len();
    assert(p + 60 <= size);
    let len: usize = read_u16(b, p + 56) as usize;
    let skip: usize = read_u16(b, p + 58) as usize;
    if len == 0 || skip > b.len() - p || len > b.len() - p - skip {
        return String::new();
    }
    let units = copy_part(b, p + skip, p + skip + len);
    assert(units@.skip(0) =~= units@);
    decode_utf16(units.as_slice(), 0, true)
}

/// What the journal record at `p` reports.
fn read_event(b: &[u8], p: usize) -> (r: Option<Event>)
    requires
        p + 60 <= b@.len(),
    ensures
        r is Some <==> event_at(b@, p as int) is Some,
        r matches Some(e) ==> event_at(b@, p as int) == Some(e@),
{
    let size: usize = b.len();
    assert(p + 60 <= size);
    let reference: u64 = read_u64(b, p + 8);
    let reason: u32 = read_u32(b, p + 40);
    if reason < 0x8000_0000 {
        return None;
    }
    let record_no: u64 = reference % 0x1_0000_0000_0000;
    if reason / 0x200 % 2 == 1 {
        return Some(Event::Delete(record_no));
    }
    let attributes: u32 = read_u32(b, p + 52);
    let raw = RawRecord {
        record_no,
        parent_no: read_u64(b, p + 16) % 0x1_0000_0000_0000,
        name: read_name(b, p),
        is_dir: attributes / 16 % 2 == 1,
        size: None,
        modified_ft: read_u64(b, p + 32),
        created_ft: 0,
        accessed_ft: 0,
        attributes,
    };
    let seq: u16 = (reference / 0x1_0000_0000_0000) as u16;
    Some(Event::Upsert(raw, seq))
}

/// Parse the USN_RECORD_V2 entries that follow the leading 8-byte next-USN. The
/// journal carries no size and no creation or access times; [`enrich`] adds them.
pub fn parse_records(buf: &[u8]) -> (r: Vec<Event>)
    ensures
        event_views(r@) == events_from(buf@, 8),
{
    let mut events: Vec<Event> = Vec::new();
    let size: usize = buf.len();
    if size < 8 {
        assert(event_views(events@) =~= events_from(buf@, 8));
        return events;
    }
    let ghost all = events_from(buf@, 8);
    let mut p: usize = 8;
    assert(event_views(events@) + all =~= all);
    while size - p >= 60
        invariant_except_break
            event_views(events@) + events_from(buf@, p as int) == all,
        invariant
            p <= size,
            size == buf@.len(),
        ensures
            event_views(events@) == all,
        decreases size - p,
    {
        let len: u32 = read_u32(buf, p);
        if len < 60 || len as u64 > (size - p) as u64 {
            assert(events_from(buf@, p as int) =~= Seq::empty());
            assert(event_views(events@) =~= all);
            break;
        }
        let ghost before = event_views(events@);
        let ghost rest = events_from(buf@, p + len);
        match read_event(buf, p) {
            Some(e) => {
                let ghost shown = e@;
                events.push(e);
                assert(event_views(events@) =~= before + one(Some(shown)));
            },
            None => {
                assert(event_views(events@) =~= before + one(None));
            },
        }
        assert(event_views(events@) + rest =~= before + (one(event_at(buf@, p as int)) + rest));
        p = p + len as usize;
        if size - p < 60 {
            assert(events_from(buf@, p as int) =~= Seq::empty());
            assert(event_views(events@) =~= all);
        }
    }
    events
}

/// The record with the metadata of a re-read of its MFT record, where that gave
/// any. The journal's name, parent and kind stay.
pub open spec fn enriched(raw: RawView, meta: Option<RecordMeta>) -> RawView {
    match meta {
        None => raw,
        Some(m) => RawView {
            size: if raw.is_dir {
                None
            } else {
                m.size
            },
            modified_ft: m.modified_ft,
            created_ft: m.created_ft,
            accessed_ft: m.accessed_ft,
            attributes: m.attributes,
            ..raw
        },
    }
}

/// Replace the journal's partial metadata with the authoritative values from the
/// live MFT record, keeping the journal's name/parent/is_dir for the changed
/// link. A failed or rejected read (`None`) leaves the journal fallbacks in place.
pub fn enrich(raw: RawRecord, meta: Option<RecordMeta>) -> (r: RawRecord)
    ensures
        r@ == enriched(raw@, meta),
{
    match meta {
        None => raw,
        Some(m) => {
            let size = if raw.is_dir {
                None
            } else {
                m.size
            };
            RawRecord {
                record_no: raw.record_no,
                parent_no: raw.parent_no,
                name: raw.name,
                is_dir: raw.is_dir,
                size,
                modified_ft: m.modified_ft,
                created_ft: m.created_ft,
                accessed_ft: m.accessed_ft,
                attributes: m.attributes,
            }
        },
    }
}

/// How an index changes with a reported change, given the metadata of a re-read of
/// the changed record.
pub open spec fn event_applied(
    from: SearchIndex,
    to: SearchIndex,
    event: EventView,
    meta: Option<RecordMeta>,
) -> bool {
    match event {
        EventView::Upsert(raw, _) => {
            let row = enriched(raw, meta);
            if index::is_kept(row) {
                exists|e: FileEntry| #[trigger]
                    index::taken(e, row) && index::upserted(from, to, e)
            } else {
                to == from
            }
        },
        EventView::Delete(n) => if index::links(from.by_record@, n).len() > 0 {
            index::deleted(from, to, n)
        } else {
            &&& to.entries@ == from.entries@
            &&& to.by_record@ == from.by_record@
            &&& to.by_name == from.by_name
            &&& to.name_order_stale == from.name_order_stale
            &&& to.drive == from.drive
        },
    }
}

/// Apply a reported change to the index, with the metadata of a re-read of the
/// changed record where that gave any.
pub fn apply_event(index: &mut SearchIndex, event: Event, meta: Option<RecordMeta>)
    requires
        old(index).wf(),
        old(index).entries@.len() < u32::MAX,
    ensures
        final(index).wf(),
        event_applied(*old(index), *final(index), event@, meta),
{
    match event {
        Event::Upsert(raw, _) => {
            let row = enrich(raw, meta);
            index.apply_upsert(row);
        },
        Event::Delete(record_no) => {
            index.apply_delete(record_no);
        },
    }
}

/// Outcome of replaying journal changes onto a loaded index.
#[derive(Clone, Copy, PartialEq, Eq, Structural)]
pub enum CatchUp {
    /// Caught up; resume the live watcher from `next_usn`.
    Caught { next_usn: i64 },
    /// The journal was recreated or the resume point was purged: rescan.
    Stale,
}

/// What a replay does next.
#[derive(Clone, Copy, PartialEq, Eq, Structural)]
pub enum ReplayStep {
    /// Read the journal `journal_id` from `start_usn` on, apply what it reports,
    /// and hand the next number to [`Replay::after_read`].
    Read { journal_id: u64, start_usn: i64 },
    /// The replay is over.
    Done(CatchUp),
}

/// A replay of the journal from a snapshot's position up to the position that the
/// journal had at the start.
#[derive(Clone, Copy)]
pub struct Replay {
    pub journal_id: u64,
    pub cursor: i64,
    pub end: i64,
}

impl Replay {
    /// The replay after a read that gave the next number `n`. It never goes back.
    pub open spec fn advanced(self, n: i64) -> Replay {
        if n > self.cursor {
            Replay { cursor: n, ..self }
        } else {
            self
        }
    }

    /// What the replay does at its cursor.
    pub open spec fn step_here(self) -> ReplayStep {
        if self.cursor < self.end {
            ReplayStep::Read { journal_id: self.journal_id, start_usn: self.cursor }
        } else {
            ReplayStep::Done(CatchUp::Caught { next_usn: self.cursor })
        }
    }

    /// Start a replay from `from_usn`, given the state of the journal. `None` when
    /// the snapshot is stale: the journal cannot be queried, a new journal id, or a
    /// purged resume point means that a replay cannot be trusted.
    pub fn start(state: Option<JournalState>, snapshot_journal_id: u64, from_usn: i64) -> (r: Option<
        Replay,
    >)
        ensures
            r is Some <==> (state matches Some(s) && s.journal_id == snapshot_journal_id
                && from_usn >= s.lowest_valid_usn),
            r matches Some(p) ==> p == (Replay {
                journal_id: snapshot_journal_id,
                cursor: from_usn,
                end: (state->0).next_usn,
            }),
    {
        let s = state?;
        if s.journal_id != snapshot_journal_id || from_usn < s.lowest_valid_usn {
            return None;
        }
        Some(Replay { journal_id: snapshot_journal_id, cursor: from_usn, end: s.next_usn })
    }

    /// What the replay does at its cursor.
    pub fn step(&self) -> (r: ReplayStep)
        ensures
            r == self.step_here(),
    {
        if self.cursor < self.end {
            ReplayStep::Read { journal_id: self.journal_id, start_usn: self.cursor }
        } else {
            ReplayStep::Done(CatchUp::Caught { next_usn: self.cursor })
        }
    }

    /// What the replay does after a read that gave the next number `next`, or that
    /// failed (`None`). A read without progress ends the replay where it stands.
    pub fn after_read(&mut self, next: Option<i64>) -> (r: ReplayStep)
        ensures
            *final(self) == match next {
                None => *old(self),
                Some(n) => old(self).advanced(n),
            },
            r == match next {
                None => ReplayStep::Done(CatchUp::Stale),
                Some(n) => if n <= old(self).cursor {
                    ReplayStep::Done(CatchUp::Caught { next_usn: old(self).cursor })
                } else {
                    old(self).advanced(n).step_here()
                },
            },
    {
        match next {
            None => ReplayStep::Done(CatchUp::Stale),
            Some(n) => {
                if n <= self.cursor {
                    return ReplayStep::Done(CatchUp::Caught { next_usn: self.cursor });
                }
                self.cursor = n;
                self.step()
            },
        }
    }
}

/// A replay never goes back: where it has caught up, it stands at or after its
/// start, whatever the reads gave.
pub proof fn law_replay_forward(from: Replay, nexts: Seq<i64>)
    ensures
        replayed(from, nexts).cursor >= from.cursor,
        replayed(from, nexts).journal_id == from.journal_id,
        replayed(from, nexts).end == from.end,
    decreases nexts.len(),
{
    if nexts.len() > 0 {
        law_replay_forward(from, nexts.drop_last());
    }
}

/// The replay after reads that gave these next numbers.
pub open spec fn replayed(from: Replay, nexts: Seq<i64>) -> Replay
    decreases nexts.len(),
{
    if nexts.len() == 0 {
        from
    } else {
        replayed(from, nexts.drop_last()).advanced(nexts.last())
    }
}

/// The position of a live watcher.
#[derive(Clone, Copy, PartialEq, Eq, Structural)]
pub struct Watch {
    pub journal_id: u64,
    pub next_usn: i64,
}

/// How many milliseconds a watcher waits when there is nothing to read.
pub const WATCH_PAUSE_MS: u64 = 400;

impl Watch {
    /// Start at `start_usn` if given (the resume point after a replay), or at the
    /// journal's current end otherwise.
    pub fn start(state: JournalState, start_usn: Option<i64>) -> (r: Watch)
        ensures
            r == (Watch {
                journal_id: state.journal_id,
                next_usn: match start_usn {
                    Some(u) => u,
                    None => state.next_usn,
                },
            }),
    {
        let next_usn = match start_usn {
            Some(u) => u,
            None => state.next_usn,
        };
        Watch { journal_id: state.journal_id, next_usn }
    }

    /// After a read that gave the buffer `buf`: go on from the number at its start,
    /// and say whether it holds events. Without any the watcher waits before it
    /// reads again.
    pub fn after_read(&mut self, buf: &[u8]) -> (r: bool)
        requires
            buf@.len() >= 8,
        ensures
            final(self).journal_id == old(self).journal_id,
            final(self).next_usn == i64_at(buf@, 0),
            r == (buf@.len() > 8),
    {
        self.next_usn = read_i64(buf, 0);
        buf.len() > 8
    }

    /// After a read that failed: go on from the journal's current end, when its
    /// state could be read, and accept the gap. The usual cause is the journal
    /// wrapping past the cursor after a churn burst, or being recreated; the
    /// watcher must outlive it.
    pub fn after_error(&mut self, state: Option<JournalState>)
        ensures
            *final(self) == match state {
                Some(s) => Watch { journal_id: s.journal_id, next_usn: s.next_usn },
                None => *old(self),
            },
    {
        if let Some(s) = state {
            self.journal_id = s.journal_id;
            self.next_usn = s.next_usn;
        }
    }
}

} // verus!
