//! The contract between the search index and any source that can list the file
//! records of a volume.

use crate::error::IndexResult;
use vstd::prelude::*;

verus! {

/// A single file record read from a volume, before path reconstruction.
#[derive(Debug)]
pub struct RawRecord {
    /// This record's MFT number.
    pub record_no: u64,
    /// The MFT number of the containing directory.
    pub parent_no: u64,
    /// File or directory name (Win32 namespace, not 8.3 DOS).
    pub name: String,
    pub is_dir: bool,
    /// Size in bytes; `None` for directories or when unknown.
    pub size: Option<u64>,
    /// Windows FILETIME (100 ns ticks since 1601-01-01); `0` when unknown.
    pub modified_ft: u64,
    /// Creation FILETIME; `0` when unknown.
    pub created_ft: u64,
    /// Last-access FILETIME; `0` when unknown.
    pub accessed_ft: u64,
    /// Windows DOS file attributes bitmask.
    pub attributes: u32,
}

/// What a [`RawRecord`] holds.
#[verifier::ext_equal]
pub struct RawView {
    pub record_no: u64,
    pub parent_no: u64,
    pub name: Seq<char>,
    pub is_dir: bool,
    pub size: Option<u64>,
    pub modified_ft: u64,
    pub created_ft: u64,
    pub accessed_ft: u64,
    pub attributes: u32,
}

impl View for RawRecord {
    type V = RawView;

    open spec fn view(&self) -> RawView {
        RawView {
            record_no: self.record_no,
            parent_no: self.parent_no,
            name: self.name@,
            is_dir: self.is_dir,
            size: self.size,
            modified_ft: self.modified_ft,
            created_ft: self.created_ft,
            accessed_ft: self.accessed_ft,
            attributes: self.attributes,
        }
    }
}

/// What the records hold, in order.
pub open spec fn raw_views(records: Seq<RawRecord>) -> Seq<RawView> {
    records.map_values(|r: RawRecord| r@)
}

/// A source that can enumerate every in-use file record on a volume.
pub trait VolumeEnumerator {
    /// The drive letter this enumerator reads, e.g. `'C'`.
    fn drive(&self) -> char;

    /// Every in-use record, once the whole MFT has been read.
    fn enumerate(&mut self) -> IndexResult<Vec<RawRecord>>;
}

} // verus!
