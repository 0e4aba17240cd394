//! On-disk index cache. Each volume's index is persisted with the USN journal
//! position captured before its scan, so a later run can load instantly and replay
//! only the changes since.

use crate::index::EntrySnapshot;
use vstd::prelude::*;
use vstd::string::*;

verus! {

/// Bumped whenever the on-disk layout changes; mismatches are ignored on load.
pub const FORMAT_VERSION: u32 = 2;

/// A persisted per-volume index plus its journal resume point.
#[derive(Debug)]
pub struct Snapshot {
    pub format_version: u32,
    pub drive: char,
    pub volume_serial: u32,
    pub journal_id: u64,
    pub next_usn: i64,
    pub entries: Vec<EntrySnapshot>,
}

impl Snapshot {
    /// A snapshot in the current layout.
    pub fn new(
        drive: char,
        volume_serial: u32,
        journal_id: u64,
        next_usn: i64,
        entries: Vec<EntrySnapshot>,
    ) -> (r: Self)
        ensures
            r == (Snapshot {
                format_version: FORMAT_VERSION,
                drive,
                volume_serial,
                journal_id,
                next_usn,
                entries,
            }),
    {
        Snapshot {
            format_version: FORMAT_VERSION,
            drive,
            volume_serial,
            journal_id,
            next_usn,
            entries,
        }
    }

    /// Whether the snapshot can be loaded for `drive`: it has the current layout and
    /// belongs to the drive.
    pub open spec fn loads(self, drive: char) -> bool {
        self.format_version == FORMAT_VERSION && self.drive == drive
    }

    /// The snapshot if it can be loaded for `drive`.
    pub fn load(self, drive: char) -> (r: Option<Self>)
        ensures
            r == if self.loads(drive) {
                Some(self)
            } else {
                None
            },
    {
        if self.format_version != FORMAT_VERSION || self.drive != drive {
            return None;
        }
        Some(self)
    }
}

/// The name of a drive's cache file.
pub fn file_name(drive: char) -> (r: String)
    ensures
        r@ == seq![drive] + ".idx"@,
{
    let mut out = String::new();
    out.push(drive);
    out.append(".idx");
    assert(out@ =~= seq![drive] + ".idx"@);
    out
}

/// The name under which a drive's cache file is written before it replaces the
/// previous one.
pub fn temp_file_name(drive: char) -> (r: String)
    ensures
        r@ == seq![drive] + ".idx.tmp"@,
{
    let mut out = String::new();
    out.push(drive);
    out.append(".idx.tmp");
    assert(out@ =~= seq![drive] + ".idx.tmp"@);
    out
}

} // verus!
