//! Discovery of the volumes to index, and the names under which they are opened.

use crate::content;
use crate::content::utf16_lossy;
use crate::error::IndexError;
use crate::text;
use crate::text::{chars_of, copy_range, is_text_ignore_case};
use vstd::prelude::*;
use vstd::string::*;

verus! {

/// The drive type of a fixed (non-removable) volume.
pub const DRIVE_FIXED: u32 = 3;

pub const ERROR_ACCESS_DENIED: u32 = 5;

/// What the system says of a drive: its type, and the name of its file system as
/// UTF-16 in a buffer filled up with NULs, if it could be read.
#[derive(Debug)]
pub struct DriveFacts {
    pub kind: u32,
    pub file_system: Option<Vec<u16>>,
}

/// A text without the NULs at its end.
pub open spec fn without_nuls(s: Seq<char>) -> Seq<char>
    decreases s.len(),
{
    if s.len() > 0 && s.last() == '\0' {
        without_nuls(s.drop_last())
    } else {
        s
    }
}

/// Whether a volume is indexed: a fixed one with the file system NTFS.
pub open spec fn is_indexed(facts: DriveFacts) -> bool {
    facts.kind == DRIVE_FIXED && (facts.file_system matches Some(units) && text::ascii_lowered(
        without_nuls(content::utf16_text(units@)),
    ) == text::ascii_lowered("NTFS"@))
}

/// Whether the name of a file system is NTFS, in any letter case.
fn names_ntfs(units: &Vec<u16>) -> (r: bool)
    ensures
        r == (text::ascii_lowered(without_nuls(content::utf16_text(units@)))
            == text::ascii_lowered("NTFS"@)),
{
    let name = utf16_lossy(units);
    let chars = chars_of(name.as_str());
    let mut end: usize = chars.len();
    assert(chars@.take(end as int) =~= chars@);
    while end > 0 && chars[end - 1] == '\0'
        invariant
            end <= chars@.len(),
            without_nuls(chars@) == without_nuls(chars@.take(end as int)),
        decreases end,
    {
        assert(chars@.take(end as int).drop_last() =~= chars@.take(end - 1));
        end -= 1;
    }
    let kept = copy_range(chars.as_slice(), 0, end);
    assert(kept@ =~= chars@.take(end as int));
    is_text_ignore_case(kept.as_slice(), "NTFS")
}

/// Whether a volume is indexed: a fixed one with the file system NTFS.
pub fn is_ntfs_fixed(facts: &DriveFacts) -> (r: bool)
    ensures
        r == is_indexed(*facts),
{
    if facts.kind != DRIVE_FIXED {
        return false;
    }
    match &facts.file_system {
        Some(units) => names_ntfs(units),
        None => false,
    }
}

/// The letter of a drive by its number: `A` is 0.
pub open spec fn letter_of(i: int) -> char {
    ('A' as int + i) as char
}

/// Whether the mask of the drives that exist holds the drive of a number.
pub open spec fn in_mask(mask: u32, i: u32) -> bool {
    mask >> i & 1 == 1
}

/// The letters of the first `n` drives that exist.
pub open spec fn letters_below(mask: u32, n: int) -> Seq<char>
    decreases n,
{
    if n <= 0 {
        Seq::empty()
    } else if in_mask(mask, (n - 1) as u32) {
        letters_below(mask, n - 1).push(letter_of(n - 1))
    } else {
        letters_below(mask, n - 1)
    }
}

/// The letters of the drives that exist, in order, given the mask of them: one bit for
/// each letter, `A` the lowest.
pub fn drive_letters(mask: u32) -> (r: Vec<char>)
    ensures
        r@ == letters_below(mask, 26),
{
    let mut out: Vec<char> = Vec::new();
    let mut i: u32 = 0;
    while i < 26
        invariant
            i <= 26,
            out@ == letters_below(mask, i as int),
        decreases 26 - i,
    {
        if mask >> i & 1 == 1 {
            out.push(('A' as u8 + i as u8) as char);
        }
        i += 1;
    }
    out
}

/// The letters of the volumes that are indexed, in order.
pub open spec fn indexed_drives(drives: Seq<(char, DriveFacts)>) -> Seq<char>
    decreases drives.len(),
{
    if drives.len() == 0 {
        Seq::empty()
    } else {
        let front = indexed_drives(drives.drop_last());
        if is_indexed(drives.last().1) {
            front.push(drives.last().0)
        } else {
            front
        }
    }
}

/// The drive letters of all fixed NTFS volumes, given what the system says of each
/// drive that exists.
pub fn ntfs_fixed_drives(drives: &Vec<(char, DriveFacts)>) -> (r: Vec<char>)
    ensures
        r@ == indexed_drives(drives@),
{
    let mut out: Vec<char> = Vec::new();
    let mut i: usize = 0;
    assert(drives@.take(0) =~= Seq::empty());
    while i < drives.len()
        invariant
            i <= drives@.len(),
            out@ == indexed_drives(drives@.take(i as int)),
        decreases drives@.len() - i,
    {
        assert(drives@.take(i + 1).drop_last() =~= drives@.take(i as int));
        if is_ntfs_fixed(&drives[i].1) {
            out.push(drives[i].0);
        }
        i += 1;
    }
    assert(drives@.take(i as int) =~= drives@);
    out
}

/// The root directory of a drive.
pub fn root_path(drive: char) -> (r: String)
    ensures
        r@ == seq![drive, ':', '\\'],
{
    let mut out = String::new();
    out.push(drive);
    out.push(':');
    out.push('\\');
    assert(out@ =~= seq![drive, ':', '\\']);
    out
}

/// The device path of a drive's raw volume.
pub fn device_path(drive: char) -> (r: String)
    ensures
        r@ == "\\\\.\\"@ + seq![drive, ':'],
{
    let mut out = String::new();
    out.append("\\\\.\\");
    out.push(drive);
    out.push(':');
    assert(out@ =~= "\\\\.\\"@ + seq![drive, ':']);
    out
}

/// The label of a drive.
fn label(drive: char) -> (r: String)
    ensures
        r@ == seq![drive, ':'],
{
    let mut out = String::new();
    out.push(drive);
    out.push(':');
    assert(out@ =~= seq![drive, ':']);
    out
}

/// Why a volume could not be opened, given the code.
pub fn open_error(drive: char, code: u32) -> (r: IndexError)
    ensures
        if code == ERROR_ACCESS_DENIED {
            r matches IndexError::AccessDenied(v) && v@ == seq![drive, ':']
        } else {
            r matches IndexError::Open { volume, code: c } && volume@ == seq![drive, ':'] && c
                == code
        },
{
    if code == ERROR_ACCESS_DENIED {
        IndexError::AccessDenied(label(drive))
    } else {
        IndexError::Open { volume: label(drive), code }
    }
}

/// Why a volume could not be read at an offset, given the code; 0 stands for an
/// unexpected end of the volume.
pub fn read_error(drive: char, offset: u64, code: u32) -> (r: IndexError)
    ensures
        r matches IndexError::Read { volume, offset: o, code: c } && volume@ == seq![drive, ':']
            && o == offset && c == code,
{
    IndexError::Read { volume: label(drive), offset, code }
}

/// How many bytes one system call transfers of `len`: its size is a 32-bit number.
pub open spec fn transfer_of(len: int) -> int {
    if len < u32::MAX {
        len
    } else {
        u32::MAX as int
    }
}

/// How many bytes one system call transfers of `len`.
pub fn transfer_size(len: usize) -> (r: u32)
    ensures
        r == transfer_of(len as int),
{
    if (len as u64) < u32::MAX as u64 {
        len as u32
    } else {
        u32::MAX
    }
}

/// A read that goes on until its buffer is full.
#[derive(Debug, Clone, Copy, PartialEq, Eq, Structural)]
pub struct Fill {
    pub filled: usize,
    pub len: usize,
}

/// What a read does after a system call.
#[derive(Debug, Clone, Copy, PartialEq, Eq, Structural)]
pub enum FillStep {
    /// Read up to this many bytes behind those that are there.
    Read { want: u32 },
    /// The buffer is full.
    Full,
    /// The volume ended before the buffer was full.
    Ended,
}

impl Fill {
    pub open spec fn wf(self) -> bool {
        self.filled <= self.len
    }

    /// What the read does next.
    pub open spec fn next(self) -> FillStep {
        if self.filled < self.len {
            FillStep::Read { want: transfer_of(self.len - self.filled) as u32 }
        } else {
            FillStep::Full
        }
    }

    /// A read of `len` bytes.
    pub fn new(len: usize) -> (r: Self)
        ensures
            r.wf(),
            r.filled == 0,
            r.len == len,
    {
        Fill { filled: 0, len }
    }

    /// What the read does next.
    pub fn step(&self) -> (r: FillStep)
        requires
            self.wf(),
        ensures
            r == self.next(),
    {
        if self.filled < self.len {
            FillStep::Read { want: transfer_size(self.len - self.filled) }
        } else {
            FillStep::Full
        }
    }

    /// What the read does after a system call that gave `read` bytes: without any the
    /// volume has ended.
    pub fn got(&mut self, read: u32) -> (r: FillStep)
        requires
            old(self).wf(),
            read <= old(self).len - old(self).filled,
        ensures
            final(self).wf(),
            final(self).len == old(self).len,
            final(self).filled == old(self).filled + read,
            r == if read == 0 {
                FillStep::Ended
            } else {
                final(self).next()
            },
    {
        if read == 0 {
            return FillStep::Ended;
        }
        self.filled = self.filled + read as usize;
        self.step()
    }
}

} // verus!
