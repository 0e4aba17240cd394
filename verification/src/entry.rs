//! Core search-index value types. No I/O, no platform code.

use vstd::prelude::*;

verus! {

/// An NTFS MFT file-record number. Newtype so raw `u64`s can't be confused
/// with sizes, offsets, or other identifiers.
#[derive(Debug, Clone, Copy, PartialEq, Eq, Hash, Structural)]
pub struct RecordId(pub u64);

/// A search-ready file or directory entry held in the in-memory index.
///
/// `name_lower` is precomputed so per-keystroke search never re-lowercases.
#[derive(Debug)]
pub struct FileEntry {
    pub record: RecordId,
    pub parent: RecordId,
    pub name: String,
    pub name_lower: String,
    pub is_dir: bool,
    /// File size in bytes; `None` for directories or unknown.
    pub size: Option<u64>,
    /// Last-modified time in Unix milliseconds; `None` if unknown.
    pub modified_ms: Option<i64>,
    /// Creation time in Unix milliseconds; `None` if unknown.
    pub created_ms: Option<i64>,
    /// Last-accessed time in Unix milliseconds; `None` if unknown.
    pub accessed_ms: Option<i64>,
    /// Windows DOS file attributes bitmask.
    pub attributes: u32,
}

impl Clone for FileEntry {
    fn clone(&self) -> (r: Self)
        ensures
            r == *self,
    {
        FileEntry {
            record: self.record,
            parent: self.parent,
            name: self.name.clone(),
            name_lower: self.name_lower.clone(),
            is_dir: self.is_dir,
            size: self.size,
            modified_ms: self.modified_ms,
            created_ms: self.created_ms,
            accessed_ms: self.accessed_ms,
            attributes: self.attributes,
        }
    }
}

} // verus!
