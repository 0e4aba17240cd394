//! The indexing lifecycle, independent of any UI: which volumes are scanned or
//! loaded from their cache, what is saved, and the status on the way.

use crate::cache::Snapshot;
use crate::catalog::Catalog;
use crate::index;
use crate::index::SearchIndex;
use crate::status;
use crate::status::{IndexStatus, StatusView};
use crate::usn::{CatchUp, JournalState};
use vstd::prelude::*;
use vstd::string::*;

verus! {

/// How many seconds pass between refreshes of the on-disk cache.
pub const CACHE_SAVE_INTERVAL_SECS: u64 = 300;

/// Where indexing is in its lifecycle.
#[derive(Debug)]
pub enum Phase {
    Indexing,
    Ready,
    Error(String),
}

/// A volume that finished indexing, plus what the cache saver needs.
#[derive(Debug, Clone, Copy, PartialEq, Eq, Structural)]
pub struct IndexedVolume {
    pub drive: char,
    pub serial: u32,
}

/// The progress of bringing every volume online.
#[derive(Debug)]
pub struct Indexer {
    pub phase: Phase,
    /// Entries committed from volumes already finished.
    pub committed: usize,
    /// Label of the volume currently being scanned.
    pub scanning: String,
    pub drives: Vec<char>,
    /// How many of the drives have been taken up.
    pub taken: usize,
    pub indexed: Vec<IndexedVolume>,
    pub last_error: String,
}

/// The label of a drive.
pub open spec fn drive_label(drive: char) -> Seq<char> {
    seq![drive, ':']
}

/// The labels of the drives, with a space between them.
pub open spec fn drive_labels(drives: Seq<char>) -> Seq<char>
    decreases drives.len(),
{
    if drives.len() == 0 {
        Seq::empty()
    } else if drives.len() == 1 {
        drive_label(drives[0])
    } else {
        drive_labels(drives.drop_last()) + seq![' '] + drive_label(drives.last())
    }
}

/// What the status bar says when no volume could be read.
pub open spec fn unread_of(problem: Seq<char>) -> Seq<char> {
    "couldn't read the NTFS volumes ("@ + problem
        + ") \u{2014} install the background service in Settings, or launch AllTheThings as administrator."@
}

impl Indexer {
    /// Indexing that has not found any volume yet.
    pub fn new() -> (r: Self)
        ensures
            r.phase == Phase::Indexing,
            r.committed == 0,
            r.scanning@ == Seq::<char>::empty(),
            r.drives@ == Seq::<char>::empty(),
            r.taken == 0,
            r.indexed@ == Seq::<IndexedVolume>::empty(),
            r.last_error@ == Seq::<char>::empty(),
    {
        Indexer {
            phase: Phase::Indexing,
            committed: 0,
            scanning: String::new(),
            drives: Vec::new(),
            taken: 0,
            indexed: Vec::new(),
            last_error: String::new(),
        }
    }

    /// Take the drives that were found. Without any, indexing ends with an error, and
    /// the result is false.
    pub fn found(&mut self, drives: Vec<char>) -> (r: bool)
        ensures
            r == (drives@.len() > 0),
            final(self).drives == drives,
            final(self).taken == 0,
            r ==> final(self).phase == old(self).phase,
            !r ==> (final(self).phase matches Phase::Error(m) && m@
                == "no fixed NTFS volumes found \u{2014} run AllTheThings as Administrator"@),
            final(self).committed == old(self).committed,
            final(self).scanning == old(self).scanning,
            final(self).indexed == old(self).indexed,
            final(self).last_error == old(self).last_error,
    {
        let any = drives.len() > 0;
        self.drives = drives;
        self.taken = 0;
        if !any {
            self.phase = Phase::Error(
                "no fixed NTFS volumes found \u{2014} run AllTheThings as Administrator".to_string(),
            );
        }
        any
    }

    /// The next drive to bring online, in the order in which they were found; none
    /// when all have been taken up.
    pub fn next_drive(&mut self) -> (r: Option<char>)
        ensures
            old(self).taken < old(self).drives@.len() ==> {
                let drive = old(self).drives@[old(self).taken as int];
                &&& r == Some(drive)
                &&& final(self).taken == old(self).taken + 1
                &&& final(self).scanning@ == drive_label(drive)
            },
            old(self).taken >= old(self).drives@.len() ==> {
                &&& r is None
                &&& final(self).taken == old(self).taken
                &&& final(self).scanning == old(self).scanning
            },
            final(self).drives == old(self).drives,
            final(self).phase == old(self).phase,
            final(self).committed == old(self).committed,
            final(self).indexed == old(self).indexed,
            final(self).last_error == old(self).last_error,
    {
        if self.taken >= self.drives.len() {
            return None;
        }
        let drive = self.drives[self.taken];
        let mut label = String::new();
        label.push(drive);
        label.push(':');
        assert(label@ =~= drive_label(drive));
        self.scanning = label;
        self.taken = self.taken + 1;
        Some(drive)
    }

    /// A volume came online with `count` entries.
    pub fn online(&mut self, drive: char, serial: u32, count: usize)
        ensures
            final(self).committed == old(self).committed.wrapping_add(count),
            final(self).indexed@ == old(self).indexed@.push(IndexedVolume { drive, serial }),
            final(self).phase == old(self).phase,
            final(self).scanning == old(self).scanning,
            final(self).drives == old(self).drives,
            final(self).taken == old(self).taken,
            final(self).last_error == old(self).last_error,
    {
        self.committed = self.committed.wrapping_add(count);
        self.indexed.push(IndexedVolume { drive, serial });
    }

    /// A volume could not be brought online.
    pub fn failed(&mut self, problem: String)
        ensures
            *final(self) == (Indexer { last_error: problem, ..*old(self) }),
    {
        self.last_error = problem;
    }

    /// All drives have been taken up: the index is ready when a volume came online,
    /// and has failed with the last problem otherwise. The result says whether there
    /// is a volume whose cache is to be kept fresh.
    pub fn finish(&mut self) -> (r: bool)
        ensures
            r == (old(self).indexed@.len() > 0),
            r ==> final(self).phase == Phase::Ready,
            !r ==> (final(self).phase matches Phase::Error(m) && m@ == unread_of(
                old(self).last_error@,
            )),
            final(self).scanning@ == Seq::<char>::empty(),
            final(self).committed == old(self).committed,
            final(self).drives == old(self).drives,
            final(self).taken == old(self).taken,
            final(self).indexed == old(self).indexed,
            final(self).last_error == old(self).last_error,
    {
        self.scanning = String::new();
        if self.indexed.len() == 0 {
            let mut message = String::new();
            message.append("couldn't read the NTFS volumes (");
            message.append(self.last_error.as_str());
            message.append(
                ") \u{2014} install the background service in Settings, or launch AllTheThings as administrator.",
            );
            assert(message@ =~= unread_of(self.last_error@));
            self.phase = Phase::Error(message);
            false
        } else {
            self.phase = Phase::Ready;
            true
        }
    }

    /// The labels of all drives, or a dash without any.
    pub open spec fn label(self) -> Seq<char> {
        if self.drives@.len() == 0 {
            "\u{2014}"@
        } else {
            drive_labels(self.drives@)
        }
    }

    /// The labels of all drives, or a dash without any.
    pub fn volume_label(&self) -> (r: String)
        ensures
            r@ == self.label(),
    {
        if self.drives.len() == 0 {
            return "\u{2014}".to_string();
        }
        let mut out = String::new();
        let mut i: usize = 0;
        assert(out@ =~= drive_labels(self.drives@.take(0)));
        while i < self.drives.len()
            invariant
                i <= self.drives@.len(),
                out@ == drive_labels(self.drives@.take(i as int)),
            decreases self.drives@.len() - i,
        {
            let ghost before = out@;
            let ghost next = self.drives@.take(i + 1);
            assert(next.drop_last() =~= self.drives@.take(i as int));
            if i > 0 {
                out.push(' ');
            }
            out.push(self.drives[i]);
            out.push(':');
            if i > 0 {
                assert(out@ =~= before + seq![' '] + drive_label(next.last()));
            } else {
                assert(out@ =~= drive_label(next[0]));
            }
            i += 1;
        }
        assert(self.drives@.take(i as int) =~= self.drives@);
        out
    }

    /// The status while `progress` entries of the current volume have been read.
    pub open spec fn shown(self, progress: usize) -> StatusView {
        let count = (self.committed + progress) as usize;
        match self.phase {
            Phase::Indexing => status::indexing_of(
                if self.scanning@.len() == 0 {
                    "volumes"@
                } else {
                    self.scanning@
                },
                count,
            ),
            Phase::Ready => status::ready_of(self.label(), count),
            Phase::Error(message) => status::error_of(self.label(), message@),
        }
    }

    /// Current status snapshot, while `progress` entries of the current volume have
    /// been read.
    pub fn status(&self, progress: usize) -> (r: IndexStatus)
        requires
            self.committed + progress <= usize::MAX,
        ensures
            r@ == self.shown(progress),
    {
        let count: usize = self.committed + progress;
        match &self.phase {
            Phase::Indexing => {
                let volume = if self.scanning.as_str().is_empty() {
                    "volumes".to_string()
                } else {
                    self.scanning.clone()
                };
                IndexStatus::indexing(volume, count)
            },
            Phase::Ready => IndexStatus::ready(self.volume_label(), count),
            Phase::Error(message) => IndexStatus::error(self.volume_label(), message.clone()),
        }
    }
}

/// A volume brought online, with the journal position to resume the watcher.
pub struct OnlineVolume {
    pub index: SearchIndex,
    pub journal_id: u64,
    pub resume_usn: Option<i64>,
}

/// A cached index that is to be replayed forward from `from_usn`.
pub struct Resumed {
    pub index: SearchIndex,
    pub journal_id: u64,
    pub from_usn: i64,
}

/// Whether a cached snapshot is of the volume that stands in the drive: a
/// reformatted one has another serial number.
pub open spec fn is_current(snapshot: Option<Snapshot>, drive: char, serial: u32) -> bool {
    snapshot matches Some(s) && s.loads(drive) && s.volume_serial == serial
}

/// The fast path: load the index from the cached snapshot of the volume, when there
/// is a current one.
pub fn from_cache(drive: char, serial: u32, snapshot: Option<Snapshot>) -> (r: Option<Resumed>)
    requires
        snapshot matches Some(s) ==> s.entries@.len() <= u32::MAX,
    ensures
        r is Some <==> is_current(snapshot, drive, serial),
        r matches Some(v) ==> {
            &&& v.index.wf() && v.index.drive == drive && !v.index.name_order_stale
            &&& index::all_loaded(v.index.entries@, (snapshot->0).entries@)
            &&& v.journal_id == (snapshot->0).journal_id
            &&& v.from_usn == (snapshot->0).next_usn
        },
{
    let s = snapshot?;
    let s = s.load(drive)?;
    if s.volume_serial != serial {
        return None;
    }
    let journal_id: u64 = s.journal_id;
    let from_usn: i64 = s.next_usn;
    Some(Resumed { index: SearchIndex::import(drive, s.entries), journal_id, from_usn })
}

impl Resumed {
    /// The volume after its replay; none when the replay could not be trusted and the
    /// volume has to be scanned.
    pub fn caught(self, outcome: CatchUp) -> (r: Option<OnlineVolume>)
        ensures
            r is Some <==> outcome is Caught,
            r matches Some(v) ==> {
                &&& v.index == self.index
                &&& v.journal_id == self.journal_id
                &&& v.resume_usn == Some(outcome->next_usn)
            },
    {
        match outcome {
            CatchUp::Caught { next_usn } => Some(
                OnlineVolume {
                    index: self.index,
                    journal_id: self.journal_id,
                    resume_usn: Some(next_usn),
                },
            ),
            CatchUp::Stale => None,
        }
    }
}

/// The volume after a full scan, with the journal position that was captured before
/// the scan, so that any change during the scan is replayed rather than lost.
pub fn scanned(index: SearchIndex, journal: Option<JournalState>) -> (r: OnlineVolume)
    ensures
        r.index == index,
        r.journal_id == match journal {
            Some(j) => j.journal_id,
            None => 0,
        },
        r.resume_usn == match journal {
            Some(j) => Some(j.next_usn),
            None => None,
        },
{
    match journal {
        Some(j) => OnlineVolume {
            index,
            journal_id: j.journal_id,
            resume_usn: Some(j.next_usn),
        },
        None => OnlineVolume { index, journal_id: 0, resume_usn: None },
    }
}

/// Whether a snapshot holds the entries of an index at a journal position.
pub open spec fn saves(
    s: Snapshot,
    index: SearchIndex,
    drive: char,
    serial: u32,
    journal_id: u64,
    next_usn: i64,
) -> bool {
    &&& s.loads(drive)
    &&& s.volume_serial == serial
    &&& s.journal_id == journal_id
    &&& s.next_usn == next_usn
    &&& index::all_loaded(index.entries@, s.entries@)
}

impl OnlineVolume {
    /// What is saved before the volume is published, so that a cache exists
    /// immediately; nothing without a journal position to resume from.
    pub fn snapshot(&self, drive: char, serial: u32) -> (r: Option<Snapshot>)
        requires
            self.index.wf(),
        ensures
            r is Some <==> self.resume_usn is Some,
            r matches Some(s) ==> saves(
                s,
                self.index,
                drive,
                serial,
                self.journal_id,
                self.resume_usn->0,
            ),
    {
        match self.resume_usn {
            None => None,
            Some(next_usn) => Some(
                Snapshot::new(drive, serial, self.journal_id, next_usn, self.index.export()),
            ),
        }
    }
}

/// What a refresh of a volume's cache saves, given the journal position that was
/// captured before, so that the entries are at or ahead of it; nothing when the
/// journal cannot be read or the catalog does not hold the volume.
pub fn refresh(volume: IndexedVolume, journal: Option<JournalState>, index: &Catalog) -> (r: Option<
    Snapshot,
>)
    requires
        index.wf(),
    ensures
        r is Some <==> journal is Some && exists|i: int| index.is_at(volume.drive, i),
        r matches Some(s) ==> exists|i: int|
            index.is_at(volume.drive, i) && saves(
                s,
                #[trigger] index.volumes@[i],
                volume.drive,
                volume.serial,
                (journal->0).journal_id,
                (journal->0).next_usn,
            ),
{
    let j = journal?;
    match index.volume(volume.drive) {
        None => None,
        Some(v) => {
            proof {
                let i = choose|i: int|
                    index.is_at(volume.drive, i) && *v == #[trigger] index.volumes@[i];
                assert(index.volumes@[i].wf());
            }
            Some(
                Snapshot::new(volume.drive, volume.serial, j.journal_id, j.next_usn, v.export()),
            )
        },
    }
}

/// What is saved comes back: a saved snapshot is current for the drive and the
/// volume it was saved for, and loads the same rows in the same order.
pub proof fn law_cache_round_trip(
    s: Snapshot,
    before: SearchIndex,
    after: SearchIndex,
    drive: char,
    serial: u32,
    journal_id: u64,
    next_usn: i64,
)
    requires
        saves(s, before, drive, serial, journal_id, next_usn),
        index::all_loaded(after.entries@, s.entries@),
    ensures
        is_current(Some(s), drive, serial),
        before.entries@.len() == after.entries@.len(),
        forall|i: int|
            0 <= i < before.entries@.len() ==> index::same_entry(
                #[trigger] before.entries@[i],
                after.entries@[i],
            ),
{
    index::law_export_import(before, s.entries@, after);
}

/// A snapshot is never loaded for another drive, nor for a volume with another
/// serial number.
pub proof fn law_cache_foreign(s: Snapshot, drive: char, serial: u32)
    requires
        s.drive != drive || s.volume_serial != serial,
    ensures
        !is_current(Some(s), drive, serial),
{
}

} // verus!
