//! The NTFS Master File Table: the boot sector's geometry, the update-sequence
//! fixups, the data runs of the table, where its records lie on disk, and what a
//! `FILE` record says.
//!
//! Layout references are to the standard on-disk NTFS structures: the BPB in
//! the boot sector, the `FILE` record header + update-sequence fixups, and the
//! `$STANDARD_INFORMATION` (0x10), `$FILE_NAME` (0x30) and `$DATA` (0x80)
//! attributes.

use crate::bytes;
use crate::bytes::{copy_part, read_le, read_u16, read_u32, read_u64};
use crate::content;
use crate::content::decode_utf16;
use crate::error::{IndexError, IndexResult};
use crate::indexer;
use crate::indexer::{RawRecord, RawView};
use crate::text::{chars_of, string_of};
use vstd::prelude::*;

verus! {

/// The 16-bit value at `off`.
pub open spec fn u16_at(b: Seq<u8>, off: int) -> int {
    bytes::le_at(b, off, 2) as int
}

/// The 32-bit value at `off`.
pub open spec fn u32_at(b: Seq<u8>, off: int) -> int {
    bytes::le_at(b, off, 4) as int
}

/// The 64-bit value at `off`.
pub open spec fn u64_at(b: Seq<u8>, off: int) -> int {
    bytes::le_at(b, off, 8) as int
}

/// The record with its sectors from number `i` on restored: the last two bytes of
/// the `i`-th sector come from the `i`-th entry of the update-sequence array.
pub open spec fn fixed_from(
    rec: Seq<u8>,
    usa: int,
    count: int,
    sector: int,
    i: int,
) -> Seq<u8>
    decreases count - i,
{
    let pos = i * sector - 2;
    let fx = usa + i * 2;
    if i >= count || pos + 2 > rec.len() || fx + 2 > rec.len() {
        rec
    } else {
        let one = rec.update(pos, rec[fx]);
        let two = one.update(pos + 1, one[fx + 1]);
        fixed_from(two, usa, count, sector, i + 1)
    }
}

/// The record with its update-sequence fixups applied.
pub open spec fn fixed(rec: Seq<u8>, sector: int) -> Seq<u8> {
    if rec.len() < 8 || sector < 2 {
        rec
    } else {
        fixed_from(rec, u16_at(rec, 4), u16_at(rec, 6), sector, 1)
    }
}

/// Apply the update-sequence fixups: each sector's final two bytes are restored
/// from the update-sequence array referenced in the record header.
pub fn apply_fixup(rec: &mut Vec<u8>, bytes_per_sector: u16)
    ensures
        final(rec)@ == fixed(old(rec)@, bytes_per_sector as int),
        final(rec)@.len() == old(rec)@.len(),
{
    if rec.len() < 8 || bytes_per_sector < 2 {
        return;
    }
    let ghost start = rec@;
    let usa: u64 = read_u16(rec.as_slice(), 4) as u64;
    let count: u64 = read_u16(rec.as_slice(), 6) as u64;
    let sector: u64 = bytes_per_sector as u64;
    let size: u64 = rec.len() as u64;
    let mut i: u64 = 1;
    let mut end: u64 = sector;
    while i < count && end <= size && usa + i * 2 + 2 <= size
        invariant
            2 <= sector <= 0xFFFF,
            usa <= 0xFFFF,
            count <= 0xFFFF,
            1 <= i <= 0x1_0000,
            end == i * sector,
            2 <= end,
            end <= 0x1_0000 * 0xFFFF,
            size == rec@.len(),
            rec@.len() == start.len(),
            fixed_from(start, usa as int, count as int, sector as int, 1) == fixed_from(
                rec@,
                usa as int,
                count as int,
                sector as int,
                i as int,
            ),
        decreases count - i,
    {
        let pos: usize = (end - 2) as usize;
        let fx: usize = (usa + i * 2) as usize;
        let low: u8 = rec[fx];
        rec.set(pos, low);
        let high: u8 = rec[fx + 1];
        rec.set(pos + 1, high);
        proof {
            assert((i + 1) * sector == end + sector) by (nonlinear_arith)
                requires
                    end == i * sector,
            ;
            assert((i + 1) * sector <= 0x1_0000 * 0xFFFF) by (nonlinear_arith)
                requires
                    i + 1 <= 0x1_0000,
                    sector <= 0xFFFF,
            ;
        }
        i += 1;
        end = end + sector;
    }
}

/// Fixups restore bytes at the ends of sectors only: every other byte of a record
/// stays as it was.
pub proof fn law_fixup_keeps(rec: Seq<u8>, sector: int, at: int)
    requires
        sector >= 2,
        0 <= at < rec.len(),
        at % sector < sector - 2,
    ensures
        fixed(rec, sector).len() == rec.len(),
        fixed(rec, sector)[at] == rec[at],
{
    if rec.len() >= 8 {
        lemma_fixup_keeps(rec, u16_at(rec, 4), u16_at(rec, 6), sector, 1, at);
    }
}

proof fn lemma_fixup_keeps(rec: Seq<u8>, usa: int, count: int, sector: int, i: int, at: int)
    requires
        sector >= 2,
        i >= 1,
        usa >= 0,
        0 <= at < rec.len(),
        at % sector < sector - 2,
    ensures
        fixed_from(rec, usa, count, sector, i).len() == rec.len(),
        fixed_from(rec, usa, count, sector, i)[at] == rec[at],
    decreases count - i,
{
    let pos = i * sector - 2;
    let fx = usa + i * 2;
    if i < count && pos + 2 <= rec.len() && fx + 2 <= rec.len() {
        assert(pos >= 0) by (nonlinear_arith)
            requires
                pos == i * sector - 2,
                i >= 1,
                sector >= 2,
        ;
        assert(pos % sector == sector - 2 && (pos + 1) % sector == sector - 1) by {
            assert((i - 1) * sector == i * sector - sector) by (nonlinear_arith);
            vstd::arithmetic::div_mod::lemma_fundamental_div_mod_converse(
                pos,
                sector,
                i - 1,
                sector - 2,
            );
            vstd::arithmetic::div_mod::lemma_fundamental_div_mod_converse(
                pos + 1,
                sector,
                i - 1,
                sector - 1,
            );
        }
        let one = rec.update(pos, rec[fx]);
        let two = one.update(pos + 1, one[fx + 1]);
        lemma_fixup_keeps(two, usa, count, sector, i + 1, at);
    }
}

/// One extent of the `$MFT` data stream. `start_lcn == None` marks a sparse run.
#[derive(Debug, Clone, Copy)]
pub struct Run {
    pub start_lcn: Option<u64>,
    pub clusters: u64,
}

/// The unsigned form of a signed cluster number.
pub open spec fn unsigned(n: int) -> u64 {
    if n < 0 {
        (n + 0x1_0000_0000_0000_0000) as u64
    } else {
        n as u64
    }
}

/// The runs that a run list stands for, where `prev` is the cluster that the last
/// run started at. A run is a header byte with the widths of the length (low) and
/// of the signed cluster offset (high), then these; a run without an offset is
/// sparse. The list ends at a zero header, and at a run that is cut off, without
/// a length, wider than 64 bits or beyond 64-bit cluster numbers.
pub open spec fn runs_from(b: Seq<u8>, prev: int) -> Seq<Run>
    decreases b.len(),
{
    if b.len() == 0 || b[0] == 0 {
        Seq::empty()
    } else {
        let n = b[0] as int % 16;
        let m = b[0] as int / 16;
        if n == 0 || 1 + n + m > b.len() || n > 8 || m > 8 {
            Seq::empty()
        } else {
            let clusters = bytes::le_at(b, 1, n) as u64;
            if m == 0 {
                seq![Run { start_lcn: None, clusters }] + runs_from(b.skip(1 + n), prev)
            } else {
                let lcn = prev + bytes::signed(
                    bytes::le_at(b, 1 + n, m) as int,
                    bytes::pow256(m as nat) as int,
                );
                if i64::MIN <= lcn <= i64::MAX {
                    seq![Run { start_lcn: Some(unsigned(lcn)), clusters }] + runs_from(
                        b.skip(1 + n + m),
                        lcn,
                    )
                } else {
                    Seq::empty()
                }
            }
        }
    }
}

/// The power of 256 with the exponent `n`.
fn limit_of(n: usize) -> (r: i128)
    requires
        1 <= n <= 8,
    ensures
        r == bytes::pow256(n as nat),
{
    proof {
        bytes::lemma_pow256();
    }
    match n {
        1 => 0x100,
        2 => 0x1_0000,
        3 => 0x100_0000,
        4 => 0x1_0000_0000,
        5 => 0x100_0000_0000,
        6 => 0x1_0000_0000_0000,
        7 => 0x100_0000_0000_0000,
        _ => 0x1_0000_0000_0000_0000,
    }
}

/// Decode an NTFS data-run list into absolute runs.
pub fn decode_runs(b: &[u8]) -> (r: Vec<Run>)
    ensures
        r@ == runs_from(b@, 0),
{
    let mut runs: Vec<Run> = Vec::new();
    let mut i: usize = 0;
    let mut prev: i64 = 0;
    let ghost all = runs_from(b@, 0);
    assert(b@.skip(0) =~= b@);
    assert(runs@ + all =~= all);
    while i < b.len() && b[i] != 0
        invariant_except_break
            runs@ + runs_from(b@.skip(i as int), prev as int) == all,
        invariant
            i <= b@.len(),
        ensures
            runs@ == all,
        decreases b@.len() - i,
    {
        let ghost s = b@.skip(i as int);
        let ghost before = runs@;
        let header: u8 = b[i];
        let len_bytes: usize = (header % 16) as usize;
        let off_bytes: usize = (header / 16) as usize;
        if len_bytes == 0 || b.len() - i < 1 + len_bytes + off_bytes || len_bytes > 8 || off_bytes
            > 8 {
            assert(runs_from(s, prev as int) =~= Seq::empty());
            assert(runs@ =~= all);
            break;
        }
        proof {
            assert(s.subrange(1, 1 + len_bytes) =~= b@.subrange(i + 1, i + 1 + len_bytes));
            assert(s.subrange(1 + len_bytes as int, 1 + len_bytes + off_bytes) =~= b@.subrange(
                i + 1 + len_bytes,
                i + 1 + len_bytes + off_bytes,
            ));
        }
        let clusters: u64 = read_le(b, i + 1, len_bytes);
        if off_bytes == 0 {
            let run = Run { start_lcn: None, clusters };
            runs.push(run);
            i = i + 1 + len_bytes;
            assert(s.skip(1 + len_bytes) =~= b@.skip(i as int));
            assert(runs@ + runs_from(b@.skip(i as int), prev as int) =~= before + (seq![run]
                + runs_from(s.skip(1 + len_bytes), prev as int)));
        } else {
            let raw: u64 = read_le(b, i + 1 + len_bytes, off_bytes);
            let limit: i128 = limit_of(off_bytes);
            proof {
                bytes::lemma_pow256();
                bytes::lemma_pow256_monotonic(off_bytes as nat, 8);
            }
            let offset: i128 = if 2 * (raw as i128) >= limit {
                raw as i128 - limit
            } else {
                raw as i128
            };
            let lcn: i128 = prev as i128 + offset;
            if lcn < i64::MIN as i128 || lcn > i64::MAX as i128 {
                assert(runs_from(s, prev as int) =~= Seq::empty());
                assert(runs@ =~= all);
                break;
            }
            let start: u64 = if lcn < 0 {
                (lcn + 0x1_0000_0000_0000_0000) as u64
            } else {
                lcn as u64
            };
            let run = Run { start_lcn: Some(start), clusters };
            runs.push(run);
            i = i + 1 + len_bytes + off_bytes;
            assert(s.skip(1 + len_bytes + off_bytes) =~= b@.skip(i as int));
            assert(runs@ + runs_from(b@.skip(i as int), lcn as int) =~= before + (seq![run]
                + runs_from(s.skip(1 + len_bytes + off_bytes), lcn as int)));
            prev = lcn as i64;
        }
    }
    runs
}

/// The offsets of the attributes of a record from `off` on. They end at the end
/// mark and at an attribute that is cut off.
pub open spec fn attributes_from(rec: Seq<u8>, off: int, used: int) -> Seq<int>
    decreases
        (if off < used {
            used - off
        } else {
            0
        }),
{
    let len = u32_at(rec, off + 4);
    if off + 8 > used || u32_at(rec, off) == 0xFFFF_FFFF || len < 8 || off + len > rec.len() || off
        + 10 > rec.len() {
        Seq::empty()
    } else {
        seq![off] + attributes_from(rec, off + len, used)
    }
}

/// How many bytes of a record are in use, by its header.
pub open spec fn used_bytes(rec: Seq<u8>) -> int {
    let used = u32_at(rec, 0x18);
    if used < rec.len() {
        used
    } else {
        rec.len() as int
    }
}

/// Whether a record starts with `FILE`.
pub open spec fn is_file_record(rec: Seq<u8>) -> bool {
    rec.len() >= 4 && rec[0] == 0x46 && rec[1] == 0x49 && rec[2] == 0x4C && rec[3] == 0x45
}

/// Whether a record starts with `FILE`.
fn has_signature(rec: &Vec<u8>) -> (r: bool)
    ensures
        r == is_file_record(rec@),
{
    rec.len() >= 4 && rec[0] == 0x46 && rec[1] == 0x49 && rec[2] == 0x4C && rec[3] == 0x45
}

/// The 16-bit value `delta` bytes after `base`.
fn field_u16(rec: &Vec<u8>, base: usize, delta: usize) -> (r: u16)
    ensures
        r == u16_at(rec@, base + delta),
{
    if base > rec.len() || delta > rec.len() - base {
        0
    } else {
        read_u16(rec.as_slice(), base + delta)
    }
}

/// The 32-bit value `delta` bytes after `base`.
fn field_u32(rec: &Vec<u8>, base: usize, delta: usize) -> (r: u32)
    ensures
        r == u32_at(rec@, base + delta),
{
    if base > rec.len() || delta > rec.len() - base {
        0
    } else {
        read_u32(rec.as_slice(), base + delta)
    }
}

/// The 64-bit value `delta` bytes after `base`.
fn field_u64(rec: &Vec<u8>, base: usize, delta: usize) -> (r: u64)
    ensures
        r == u64_at(rec@, base + delta),
{
    if base > rec.len() || delta > rec.len() - base {
        0
    } else {
        read_u64(rec.as_slice(), base + delta)
    }
}

/// How many bytes of a record are in use, by its header.
fn count_used(rec: &Vec<u8>) -> (r: usize)
    ensures
        r == used_bytes(rec@),
        r <= rec@.len(),
{
    let used: u64 = read_u32(rec.as_slice(), 0x18) as u64;
    if used < rec.len() as u64 {
        used as usize
    } else {
        rec.len()
    }
}

/// The length of the attribute at `off`, when there is one.
fn attribute_len(rec: &Vec<u8>, off: usize, used: usize) -> (r: Option<usize>)
    requires
        used <= rec@.len(),
    ensures
        r matches Some(len) ==> len == u32_at(rec@, off + 4) && 8 <= len && off + len <= rec@.len()
            && off + 10 <= rec@.len() && attributes_from(rec@, off as int, used as int) == seq![
            off as int,
        ] + attributes_from(rec@, off + len, used as int),
        r is None ==> attributes_from(rec@, off as int, used as int) == Seq::<int>::empty(),
{
    if used < 8 || off > used - 8 || rec.len() - off < 10 {
        return None;
    }
    if read_u32(rec.as_slice(), off) == 0xFFFF_FFFF {
        return None;
    }
    let len: u32 = read_u32(rec.as_slice(), off + 4);
    if len < 8 || len as u64 > (rec.len() - off) as u64 {
        return None;
    }
    Some(len as usize)
}

/// The runs of the first attribute that is an unnamed, non-resident `$DATA` with
/// runs, and the size of its data.
pub open spec fn data_runs(rec: Seq<u8>, attributes: Seq<int>) -> Option<(Seq<Run>, u64)>
    decreases attributes.len(),
{
    if attributes.len() == 0 {
        None
    } else {
        let off = attributes[0];
        let start = off + u16_at(rec, off + 0x20);
        let end = off + u32_at(rec, off + 4);
        let runs = runs_from(rec.subrange(start, end), 0);
        if u32_at(rec, off) == 0x80 && rec[off + 9] == 0 && rec[off + 8] == 1 && start < end
            && runs.len() > 0 {
            Some((runs, u64_at(rec, off + 0x30) as u64))
        } else {
            data_runs(rec, attributes.drop_first())
        }
    }
}

/// The runs and the size of the table, by its own record.
pub open spec fn table_runs(rec: Seq<u8>) -> Option<(Seq<Run>, u64)> {
    if rec.len() < 0x18 || !is_file_record(rec) {
        None
    } else {
        data_runs(rec, attributes_from(rec, u16_at(rec, 0x14), used_bytes(rec)))
    }
}

/// A malformed-table error.
fn malformed(volume: &str, detail: &str) -> (r: IndexError)
    ensures
        r matches IndexError::Malformed { volume: v, detail: d } && v@ == volume@ && d@ == detail@,
{
    let v = chars_of(volume);
    let d = chars_of(detail);
    IndexError::Malformed { volume: string_of(v.as_slice()), detail: string_of(d.as_slice()) }
}

/// Whether the result is a malformed-table error of this volume with this detail.
pub open spec fn fails<T>(r: IndexResult<T>, volume: Seq<char>, detail: Seq<char>) -> bool {
    r matches Err(IndexError::Malformed { volume: v, detail: d }) && v@ == volume && d@ == detail
}

/// Locate the non-resident, unnamed `$DATA` attribute of the `$MFT` record and
/// decode its run list plus its real (logical) size.
pub fn parse_mft_data_runs(rec0: &Vec<u8>, volume: &str) -> (r: IndexResult<(Vec<Run>, u64)>)
    ensures
        r is Ok <==> table_runs(rec0@) is Some,
        r matches Ok(p) ==> table_runs(rec0@) == Some((p.0@, p.1)),
        rec0@.len() < 0x18 || !is_file_record(rec0@) ==> fails(
            r,
            volume@,
            "$MFT record is not a FILE record"@,
        ),
        rec0@.len() >= 0x18 && is_file_record(rec0@) && r is Err ==> fails(
            r,
            volume@,
            "no non-resident $DATA attribute on $MFT"@,
        ),
{
    if rec0.len() < 0x18 || !has_signature(rec0) {
        return Err(malformed(volume, "$MFT record is not a FILE record"));
    }
    let used: usize = count_used(rec0);
    let size: usize = rec0.len();
    let mut off: usize = read_u16(rec0.as_slice(), 0x14) as usize;
    let ghost all = table_runs(rec0@);
    let mut going = true;
    while going
        invariant
            used <= rec0@.len(),
            size == rec0@.len(),
            rec0@.len() >= 0x18,
            is_file_record(rec0@),
            all == table_runs(rec0@),
            off <= rec0@.len() || !going || off <= 0xFFFF,
            going ==> all == data_runs(
                rec0@,
                attributes_from(rec0@, off as int, used as int),
            ),
            !going ==> all is None,
        decreases (if going { 1int } else { 0int }), 0x1_0000 + rec0@.len() - off,
    {
        match attribute_len(rec0, off, used) {
            None => {
                going = false;
            },
            Some(len) => {
                let ghost rest = attributes_from(rec0@, off + len, used as int);
                assert((seq![off as int] + rest).drop_first() =~= rest);
                let end: usize = off + len;
                if read_u32(rec0.as_slice(), off) == 0x80 && rec0[off + 9] == 0 && rec0[off + 8]
                    == 1 {
                    let skip: usize = field_u16(rec0, off, 0x20) as usize;
                    if skip < len {
                        let list = copy_part(rec0.as_slice(), off + skip, end);
                        let runs = decode_runs(list.as_slice());
                        if runs.len() > 0 {
                            return Ok((runs, field_u64(rec0, off, 0x30)));
                        }
                    }
                }
                off = end;
            },
        }
    }
    Err(malformed(volume, "no non-resident $DATA attribute on $MFT"))
}

/// What the attributes of a record say so far.
#[verifier::ext_equal]
pub struct ScanView {
    /// The parent and the name of each link, DOS aliases left out.
    pub names: Seq<(u64, Seq<char>)>,
    /// The size by the unnamed data stream.
    pub data_size: Option<u64>,
    /// The size by the last name.
    pub name_size: Option<u64>,
    pub created_ft: u64,
    pub modified_ft: u64,
    pub accessed_ft: u64,
    pub attributes: u32,
}

impl ScanView {
    /// Before the first attribute.
    pub open spec fn empty() -> ScanView {
        ScanView {
            names: Seq::empty(),
            data_size: None,
            name_size: None,
            created_ft: 0,
            modified_ft: 0,
            accessed_ft: 0,
            attributes: 0,
        }
    }
}

/// Where the content of the resident attribute at `off` starts.
pub open spec fn content_at(rec: Seq<u8>, off: int) -> int {
    off + u16_at(rec, off + 0x14)
}

/// The parent and the name that the `$FILE_NAME` attribute at `off` holds, when
/// it is whole and no DOS 8.3 alias.
pub open spec fn file_name(rec: Seq<u8>, off: int) -> Option<(u64, Seq<char>)> {
    let at = content_at(rec, off);
    let end = at + 0x42 + 2 * rec[at + 0x40];
    if at + 0x42 <= rec.len() && rec[at + 0x41] != 2 && end <= rec.len() {
        Some(
            (
                (u64_at(rec, at) % 0x1_0000_0000_0000) as u64,
                content::utf16_text(content::units(rec.subrange(at + 0x42, end), true)),
            ),
        )
    } else {
        None
    }
}

/// What the attributes say after the one at `off`.
pub open spec fn scanned(rec: Seq<u8>, off: int, s: ScanView) -> ScanView {
    let kind = u32_at(rec, off);
    let at = content_at(rec, off);
    if kind == 0x10 {
        ScanView {
            created_ft: u64_at(rec, at) as u64,
            modified_ft: u64_at(rec, at + 0x08) as u64,
            accessed_ft: u64_at(rec, at + 0x18) as u64,
            attributes: u32_at(rec, at + 0x20) as u32,
            ..s
        }
    } else if kind == 0x30 {
        match file_name(rec, off) {
            Some(n) => ScanView {
                names: s.names.push(n),
                name_size: Some(u64_at(rec, at + 0x30) as u64),
                ..s
            },
            None => s,
        }
    } else if kind == 0x80 && rec[off + 9] == 0 {
        ScanView {
            data_size: Some(
                if rec[off + 8] == 0 {
                    u32_at(rec, off + 0x10) as u64
                } else {
                    u64_at(rec, off + 0x30) as u64
                },
            ),
            ..s
        }
    } else {
        s
    }
}

/// What the attributes at these offsets say, one after the other.
pub open spec fn scan_all(rec: Seq<u8>, attributes: Seq<int>, s: ScanView) -> ScanView
    decreases attributes.len(),
{
    if attributes.len() == 0 {
        s
    } else {
        scan_all(rec, attributes.drop_first(), scanned(rec, attributes[0], s))
    }
}

/// Whether a record is a whole `FILE` record in use.
pub open spec fn in_use(rec: Seq<u8>) -> bool {
    rec.len() >= 0x30 && is_file_record(rec) && u16_at(rec, 0x16) % 2 == 1
}

/// Whether a record is that of a directory.
pub open spec fn is_directory(rec: Seq<u8>) -> bool {
    u16_at(rec, 0x16) / 2 % 2 == 1
}

/// What a record says, its fixups applied.
pub open spec fn scan_record(rec: Seq<u8>, sector: int) -> ScanView {
    let whole = fixed(rec, sector);
    scan_all(
        whole,
        attributes_from(whole, u16_at(rec, 0x14), used_bytes(rec)),
        ScanView::empty(),
    )
}

/// What a re-read of a record says of its file.
#[derive(Clone, Copy)]
pub struct RecordMeta {
    pub size: Option<u64>,
    pub modified_ft: u64,
    pub created_ft: u64,
    pub accessed_ft: u64,
    pub attributes: u32,
}

/// The metadata of a record: no size for a directory, the size of the unnamed
/// data stream or else of the name for a file, and the directory attribute by the
/// record header.
pub open spec fn meta_of(rec: Seq<u8>, sector: int) -> RecordMeta {
    let s = scan_record(rec, sector);
    RecordMeta {
        size: if is_directory(rec) {
            None
        } else if s.data_size is Some {
            s.data_size
        } else {
            s.name_size
        },
        modified_ft: s.modified_ft,
        created_ft: s.created_ft,
        accessed_ft: s.accessed_ft,
        attributes: if is_directory(rec) {
            s.attributes | 0x10
        } else {
            s.attributes & !0x10u32
        },
    }
}

/// The row of one name of a record.
pub open spec fn raw_of(
    record_no: u64,
    is_dir: bool,
    meta: RecordMeta,
    name: (u64, Seq<char>),
) -> RawView {
    RawView {
        record_no,
        parent_no: name.0,
        name: name.1,
        is_dir,
        size: meta.size,
        modified_ft: meta.modified_ft,
        created_ft: meta.created_ft,
        accessed_ft: meta.accessed_ft,
        attributes: meta.attributes,
    }
}

/// The rows of a record: one for each name, none when it is not in use.
pub open spec fn record_rows(rec: Seq<u8>, record_no: u64, sector: int) -> Seq<RawView> {
    if in_use(rec) {
        let meta = meta_of(rec, sector);
        scan_record(rec, sector).names.map_values(
            |n: (u64, Seq<char>)| raw_of(record_no, is_directory(rec), meta, n),
        )
    } else {
        Seq::empty()
    }
}

/// What the attributes of a record say so far.
struct Scan {
    names: Vec<(u64, String)>,
    data_size: Option<u64>,
    name_size: Option<u64>,
    created_ft: u64,
    modified_ft: u64,
    accessed_ft: u64,
    attributes: u32,
}

impl Scan {
    spec fn shown(self) -> ScanView {
        ScanView {
            names: self.names@.map_values(|n: (u64, String)| (n.0, n.1@)),
            data_size: self.data_size,
            name_size: self.name_size,
            created_ft: self.created_ft,
            modified_ft: self.modified_ft,
            accessed_ft: self.accessed_ft,
            attributes: self.attributes,
        }
    }
}

/// The parent and the name that the `$FILE_NAME` attribute at `off` holds.
fn read_name(rec: &Vec<u8>, off: usize) -> (r: Option<(u64, String)>)
    requires
        off + 10 <= rec@.len(),
    ensures
        r is Some <==> file_name(rec@, off as int) is Some,
        r matches Some(n) ==> file_name(rec@, off as int) == Some((n.0, n.1@)),
{
    let skip: usize = field_u16(rec, off, 0x14) as usize;
    if skip > rec.len() - off || rec.len() - off - skip < 0x42 {
        return None;
    }
    let at: usize = off + skip;
    let parent: u64 = read_u64(rec.as_slice(), at) % 0x1_0000_0000_0000;
    let count: usize = rec[at + 0x40] as usize;
    let namespace: u8 = rec[at + 0x41];
    if namespace == 2 || rec.len() - at - 0x42 < count * 2 {
        return None;
    }
    let units = copy_part(rec.as_slice(), at + 0x42, at + 0x42 + count * 2);
    let name = decode_utf16(units.as_slice(), 0, true);
    assert(units@.skip(0) =~= units@);
    Some((parent, name))
}

/// Take in the attribute at `off`.
fn scan_attribute(rec: &Vec<u8>, off: usize, scan: Scan) -> (r: Scan)
    requires
        off + 10 <= rec@.len(),
    ensures
        r.shown() == scanned(rec@, off as int, scan.shown()),
{
    let mut out = scan;
    let size: usize = rec.len();
    assert(off + 10 <= size);
    let kind: u32 = read_u32(rec.as_slice(), off);
    let skip: usize = field_u16(rec, off, 0x14) as usize;
    if kind == 0x10 {
        out.created_ft = content_u64(rec, off, skip, 0);
        out.modified_ft = content_u64(rec, off, skip, 0x08);
        out.accessed_ft = content_u64(rec, off, skip, 0x18);
        out.attributes = content_u32(rec, off, skip, 0x20);
    } else if kind == 0x30 {
        if let Some((parent, name)) = read_name(rec, off) {
            let ghost before = scan.shown().names;
            let ghost shown = name@;
            out.names.push((parent, name));
            assert(out.shown().names =~= before.push((parent, shown)));
            out.name_size = Some(content_u64(rec, off, skip, 0x30));
        }
    } else if kind == 0x80 && rec[off + 9] == 0 {
        out.data_size = Some(
            if rec[off + 8] == 0 {
                field_u32(rec, off, 0x10) as u64
            } else {
                field_u64(rec, off, 0x30)
            },
        );
    }
    out
}

/// The 64-bit value `delta` bytes into the content `skip` bytes after `off`.
fn content_u64(rec: &Vec<u8>, off: usize, skip: usize, delta: usize) -> (r: u64)
    requires
        off <= rec@.len(),
        skip <= 0xFFFF,
        delta <= 0x40,
    ensures
        r == u64_at(rec@, off + skip + delta),
{
    if skip > rec.len() - off {
        0
    } else {
        field_u64(rec, off + skip, delta)
    }
}

/// The 32-bit value `delta` bytes into the content `skip` bytes after `off`.
fn content_u32(rec: &Vec<u8>, off: usize, skip: usize, delta: usize) -> (r: u32)
    requires
        off <= rec@.len(),
        skip <= 0xFFFF,
        delta <= 0x40,
    ensures
        r == u32_at(rec@, off + skip + delta),
{
    if skip > rec.len() - off {
        0
    } else {
        field_u32(rec, off + skip, delta)
    }
}

/// Take in all the attributes of a record from `first` on.
fn scan_attributes(rec: &Vec<u8>, first: usize, used: usize) -> (r: Scan)
    requires
        first <= 0xFFFF,
        used <= rec@.len(),
    ensures
        r.shown() == scan_all(
            rec@,
            attributes_from(rec@, first as int, used as int),
            ScanView::empty(),
        ),
{
    let mut scan = Scan {
        names: Vec::new(),
        data_size: None,
        name_size: None,
        created_ft: 0,
        modified_ft: 0,
        accessed_ft: 0,
        attributes: 0,
    };
    assert(scan.shown().names =~= Seq::empty());
    let ghost all = scan_all(
        rec@,
        attributes_from(rec@, first as int, used as int),
        ScanView::empty(),
    );
    let size: usize = rec.len();
    let mut off: usize = first;
    let mut going = true;
    while going
        invariant
            used <= rec@.len(),
            size == rec@.len(),
            going ==> all == scan_all(
                rec@,
                attributes_from(rec@, off as int, used as int),
                scan.shown(),
            ),
            !going ==> all == scan.shown(),
            off <= 0xFFFF || off <= rec@.len(),
        decreases (if going { 1int } else { 0int }), 0x1_0000 + rec@.len() - off,
    {
        match attribute_len(rec, off, used) {
            None => {
                going = false;
            },
            Some(len) => {
                let ghost rest = attributes_from(rec@, off + len, used as int);
                assert((seq![off as int] + rest).drop_first() =~= rest);
                scan = scan_attribute(rec, off, scan);
                off = off + len;
            },
        }
    }
    scan
}

/// The metadata of a record that has been scanned.
fn meta_from(scan: &Scan, is_dir: bool) -> (r: RecordMeta)
    ensures
        r == (RecordMeta {
            size: if is_dir {
                None
            } else if scan.data_size is Some {
                scan.data_size
            } else {
                scan.name_size
            },
            modified_ft: scan.modified_ft,
            created_ft: scan.created_ft,
            accessed_ft: scan.accessed_ft,
            attributes: if is_dir {
                scan.attributes | 0x10
            } else {
                scan.attributes & !0x10u32
            },
        }),
{
    let size = if is_dir {
        None
    } else if scan.data_size.is_some() {
        scan.data_size
    } else {
        scan.name_size
    };
    RecordMeta {
        size,
        modified_ft: scan.modified_ft,
        created_ft: scan.created_ft,
        accessed_ft: scan.accessed_ft,
        attributes: if is_dir {
            scan.attributes | 0x10
        } else {
            scan.attributes & !0x10u32
        },
    }
}

/// Parse one MFT record into one [`RawRecord`] per real name. A hardlinked file
/// has several `$FILE_NAME` attributes (one per directory it lives in); each is a
/// distinct path that Everything lists separately. DOS 8.3 aliases (namespace 2)
/// are suppressed.
pub fn parse_file_record(rec: Vec<u8>, record_no: u64, bytes_per_sector: u16) -> (r: Vec<RawRecord>)
    ensures
        indexer::raw_views(r@) == record_rows(rec@, record_no, bytes_per_sector as int),
{
    let mut rows: Vec<RawRecord> = Vec::new();
    let flags: u16 = read_u16(rec.as_slice(), 0x16);
    if rec.len() < 0x30 || !has_signature(&rec) || flags % 2 == 0 {
        assert(indexer::raw_views(rows@) =~= Seq::empty());
        return rows;
    }
    let is_dir = flags / 2 % 2 == 1;
    let used: usize = count_used(&rec);
    let first: usize = read_u16(rec.as_slice(), 0x14) as usize;
    let mut whole = rec;
    apply_fixup(&mut whole, bytes_per_sector);
    let scan = scan_attributes(&whole, first, used);
    let meta = meta_from(&scan, is_dir);
    let ghost names = scan.shown().names;
    let mut i: usize = 0;
    while i < scan.names.len()
        invariant
            i <= scan.names@.len(),
            names == scan.shown().names,
            rows@.len() == i,
            forall|k: int|
                0 <= k < i ==> (#[trigger] rows@[k])@ == raw_of(record_no, is_dir, meta, names[k]),
        decreases scan.names@.len() - i,
    {
        let name = scan.names[i].1.clone();
        rows.push(
            RawRecord {
                record_no,
                parent_no: scan.names[i].0,
                name,
                is_dir,
                size: meta.size,
                modified_ft: meta.modified_ft,
                created_ft: meta.created_ft,
                accessed_ft: meta.accessed_ft,
                attributes: meta.attributes,
            },
        );
        i += 1;
    }
    assert(indexer::raw_views(rows@) =~= record_rows(rec@, record_no, bytes_per_sector as int));
    rows
}

/// The metadata of a record that is in use and has the sequence number `seq`:
/// another number means that the record was reused for another file.
pub fn parse_meta(rec: Vec<u8>, bytes_per_sector: u16, seq: u16) -> (r: Option<RecordMeta>)
    ensures
        r == if in_use(rec@) && u16_at(rec@, 0x10) == seq {
            Some(meta_of(rec@, bytes_per_sector as int))
        } else {
            None
        },
{
    let flags: u16 = read_u16(rec.as_slice(), 0x16);
    if rec.len() < 0x30 || !has_signature(&rec) || flags % 2 == 0 || read_u16(rec.as_slice(), 0x10)
        != seq {
        return None;
    }
    let is_dir = flags / 2 % 2 == 1;
    let used: usize = count_used(&rec);
    let first: usize = read_u16(rec.as_slice(), 0x14) as usize;
    let mut whole = rec;
    apply_fixup(&mut whole, bytes_per_sector);
    let scan = scan_attributes(&whole, first, used);
    Some(meta_from(&scan, is_dir))
}

/// The rows of a record carry the directory attribute exactly when the record is
/// that of a directory, whatever its stored attributes say, and a directory has
/// no size.
pub proof fn law_directory_attribute(rec: Seq<u8>, record_no: u64, sector: int, i: int)
    requires
        0 <= i < record_rows(rec, record_no, sector).len(),
    ensures
        ({
            let row = record_rows(rec, record_no, sector)[i];
            &&& row.record_no == record_no
            &&& row.attributes & 0x10 != 0 <==> row.is_dir
            &&& row.is_dir ==> row.size is None
        }),
{
    let a = scan_record(rec, sector).attributes;
    assert((a | 0x10) & 0x10 != 0) by (bit_vector);
    assert((a & !0x10u32) & 0x10 == 0) by (bit_vector);
}

/// What the boot sector says of a volume.
#[derive(Clone, Copy)]
pub struct Geometry {
    pub bytes_per_sector: u16,
    pub bytes_per_cluster: u32,
    pub record_size: u32,
    /// Where the table's own record lies.
    pub mft_offset: u64,
}

/// Whether the boot sector is that of an NTFS volume.
pub open spec fn is_ntfs(boot: Seq<u8>) -> bool {
    &&& boot.len() >= 512
    &&& boot.subrange(3, 11) == seq![0x4Eu8, 0x54, 0x46, 0x53, 0x20, 0x20, 0x20, 0x20]
}

/// The bytes of a cluster, by the boot sector.
pub open spec fn cluster_bytes(boot: Seq<u8>) -> int {
    u16_at(boot, 0x0B) * boot[0x0D]
}

/// The bytes of a record, by the boot sector: so many clusters, or, when that byte
/// is negative, two to the power of its magnitude; 0 when that is no 32-bit size.
pub open spec fn record_bytes(boot: Seq<u8>) -> int {
    let c = boot[0x40] as int;
    if c < 128 {
        c * cluster_bytes(boot)
    } else if 256 - c < 32 {
        crate::size::pow2((256 - c) as nat) as int
    } else {
        0
    }
}

/// Two to the power of `n`.
fn power_of_two(n: u32) -> (r: u32)
    requires
        n < 32,
    ensures
        r == crate::size::pow2(n as nat),
{
    let mut p: u64 = 1;
    let mut i: u32 = 0;
    proof {
        crate::size::lemma_pow2_31();
    }
    while i < n
        invariant
            i <= n < 32,
            p == crate::size::pow2(i as nat),
            p <= 0x8000_0000,
        decreases n - i,
    {
        proof {
            crate::size::lemma_pow2_31();
            crate::size::lemma_pow2_monotonic((i + 1) as nat, 31);
        }
        p = p * 2;
        i += 1;
    }
    p as u32
}

/// Read the geometry of the volume `volume` off its boot sector.
pub fn parse_boot(boot: &Vec<u8>, volume: &str) -> (r: IndexResult<Geometry>)
    requires
        boot@.len() >= 512,
    ensures
        !is_ntfs(boot@) ==> (r matches Err(IndexError::NotNtfs(v)) && v@ == volume@),
        is_ntfs(boot@) && (record_bytes(boot@) == 0 || cluster_bytes(boot@) == 0) ==> fails(
            r,
            volume@,
            "zero record or cluster size"@,
        ),
        is_ntfs(boot@) && record_bytes(boot@) != 0 && cluster_bytes(boot@) != 0 ==> {
            let offset = u64_at(boot@, 0x30) * cluster_bytes(boot@);
            if offset <= u64::MAX {
                r matches Ok(g) && g.bytes_per_sector == u16_at(boot@, 0x0B) && g.bytes_per_cluster
                    == cluster_bytes(boot@) && g.record_size == record_bytes(boot@) && g.mft_offset
                    == offset
            } else {
                fails(r, volume@, "table beyond the volume"@)
            }
        },
{
    let head = copy_part(boot.as_slice(), 3, 11);
    let ntfs = head[0] == 0x4E && head[1] == 0x54 && head[2] == 0x46 && head[3] == 0x53 && head[4]
        == 0x20 && head[5] == 0x20 && head[6] == 0x20 && head[7] == 0x20;
    proof {
        let mark = seq![0x4Eu8, 0x54, 0x46, 0x53, 0x20, 0x20, 0x20, 0x20];
        if ntfs {
            assert(head@ =~= mark);
        } else if head@ == mark {
            assert(head@[0] == mark[0] && head@[1] == mark[1] && head@[2] == mark[2] && head@[3]
                == mark[3] && head@[4] == mark[4] && head@[5] == mark[5] && head@[6] == mark[6]
                && head@[7] == mark[7]);
        }
    }
    if !ntfs {
        let v = chars_of(volume);
        return Err(IndexError::NotNtfs(string_of(v.as_slice())));
    }
    let bytes_per_sector: u16 = read_u16(boot.as_slice(), 0x0B);
    let sectors: u32 = boot[0x0D] as u32;
    let sector: u32 = bytes_per_sector as u32;
    assert(sector * sectors <= 0xFFFF * 0xFF) by (nonlinear_arith)
        requires
            sector <= 0xFFFF,
            sectors <= 0xFF,
    ;
    let bytes_per_cluster: u32 = sector * sectors;
    let c: u32 = boot[0x40] as u32;
    let record_size: u32 = if c < 128 {
        assert(c * bytes_per_cluster <= 127 * (0xFFFF * 0xFF)) by (nonlinear_arith)
            requires
                c <= 127,
                bytes_per_cluster <= 0xFFFF * 0xFF,
        ;
        c * bytes_per_cluster
    } else if 256 - c < 32 {
        power_of_two(256 - c)
    } else {
        0
    };
    if record_size == 0 || bytes_per_cluster == 0 {
        return Err(malformed(volume, "zero record or cluster size"));
    }
    let lcn: u64 = read_u64(boot.as_slice(), 0x30);
    match lcn.checked_mul(bytes_per_cluster as u64) {
        Some(mft_offset) => Ok(
            Geometry { bytes_per_sector, bytes_per_cluster, record_size, mft_offset },
        ),
        None => Err(malformed(volume, "table beyond the volume")),
    }
}

/// Where the records of a table lie.
pub struct Layout {
    pub geometry: Geometry,
    pub runs: Vec<Run>,
    pub record_count: u64,
}

impl Layout {
    /// Whether the sizes are usable.
    pub open spec fn valid(self) -> bool {
        self.geometry.bytes_per_cluster > 0 && self.geometry.record_size > 0
    }
}

/// Learn from the table's own record where the rest of the table lies.
pub fn parse_layout(geometry: Geometry, rec0: Vec<u8>, volume: &str) -> (r: IndexResult<Layout>)
    requires
        geometry.record_size > 0,
    ensures
        ({
            let whole = fixed(rec0@, geometry.bytes_per_sector as int);
            &&& r is Ok <==> table_runs(whole) is Some
            &&& r matches Ok(l) ==> l.geometry == geometry && Some(l.runs@) == Some(
                (table_runs(whole)->0).0,
            ) && l.record_count == (table_runs(whole)->0).1 / geometry.record_size as u64
            &&& r is Err ==> fails(
                r,
                volume@,
                if whole.len() < 0x18 || !is_file_record(whole) {
                    "$MFT record is not a FILE record"@
                } else {
                    "no non-resident $DATA attribute on $MFT"@
                },
            )
        }),
{
    let mut whole = rec0;
    apply_fixup(&mut whole, geometry.bytes_per_sector);
    match parse_mft_data_runs(&whole, volume) {
        Ok((runs, size)) => Ok(
            Layout { geometry, runs, record_count: size / (geometry.record_size as u64) },
        ),
        Err(e) => Err(e),
    }
}

/// The bytes of a run.
pub open spec fn run_bytes(g: Geometry, run: Run) -> int {
    run.clusters * g.bytes_per_cluster
}

/// How many whole records a run holds.
pub open spec fn run_records(g: Geometry, run: Run) -> int {
    run_bytes(g, run) / g.record_size as int
}

/// Where the record with the number `n` lies, counted from the first run. A record
/// in a sparse run lies nowhere.
pub open spec fn record_place(g: Geometry, runs: Seq<Run>, n: int) -> Option<int>
    decreases runs.len(),
{
    if runs.len() == 0 || n < 0 {
        None
    } else if n < run_records(g, runs[0]) {
        match runs[0].start_lcn {
            Some(lcn) => Some(lcn * g.bytes_per_cluster + n * g.record_size),
            None => None,
        }
    } else {
        record_place(g, runs.drop_first(), n - run_records(g, runs[0]))
    }
}

/// The numbers and places of the first `count` records of a run that starts with
/// the record `first` at the byte `base`.
pub open spec fn places(g: Geometry, first: int, base: int, count: int) -> Seq<(int, int)> {
    Seq::new(
        if count < 0 {
            0
        } else {
            count as nat
        },
        |k: int| (first + k, base + k * g.record_size),
    )
}

/// The numbers and places of the records below `count`, where `runs` starts with
/// the record `first`.
pub open spec fn record_places(g: Geometry, runs: Seq<Run>, first: int, count: int) -> Seq<
    (int, int),
>
    decreases runs.len(),
{
    if runs.len() == 0 || first >= count {
        Seq::empty()
    } else {
        let n = run_records(g, runs[0]);
        let here = if n < count - first {
            n
        } else {
            count - first
        };
        (match runs[0].start_lcn {
            Some(lcn) => places(g, first, lcn * g.bytes_per_cluster, here),
            None => Seq::empty(),
        }) + record_places(g, runs.drop_first(), first + n, count)
    }
}

/// Whether the bytes and record numbers of the runs up to `count` records stay
/// within 64 bits.
pub open spec fn runs_fit(g: Geometry, runs: Seq<Run>, first: int, count: int) -> bool
    decreases runs.len(),
{
    if runs.len() == 0 || first >= count {
        true
    } else {
        let size = run_bytes(g, runs[0]);
        let n = run_records(g, runs[0]);
        &&& size <= u64::MAX
        &&& first + n <= u64::MAX
        &&& runs[0].start_lcn matches Some(lcn) ==> lcn * g.bytes_per_cluster + size <= u64::MAX
        &&& runs_fit(g, runs.drop_first(), first + n, count)
    }
}

/// A read of records that lie side by side.
#[derive(Clone, Copy)]
pub struct Chunk {
    /// Where the first record lies.
    pub offset: u64,
    /// The number of the first record.
    pub first: u64,
    pub records: u64,
}

/// The numbers and places of the records of the chunks, in order.
pub open spec fn chunk_places(g: Geometry, chunks: Seq<Chunk>) -> Seq<(int, int)>
    decreases chunks.len(),
{
    if chunks.len() == 0 {
        Seq::empty()
    } else {
        let c = chunks.last();
        chunk_places(g, chunks.drop_last()) + places(
            g,
            c.first as int,
            c.offset as int,
            c.records as int,
        )
    }
}

/// The most records that one read takes in.
pub const CHUNK_RECORDS: u64 = 1024;

/// Append the reads of `count` records from the record `first` at `base` on.
fn push_chunks(chunks: &mut Vec<Chunk>, g: Geometry, first: u64, base: u64, count: u64)
    requires
        g.record_size > 0,
        first + count <= u64::MAX,
        base + count * g.record_size <= u64::MAX,
        forall|i: int|
            0 <= i < old(chunks)@.len() ==> 0 < (#[trigger] old(chunks)@[i]).records
                <= CHUNK_RECORDS,
    ensures
        chunk_places(g, final(chunks)@) == chunk_places(g, old(chunks)@) + places(
            g,
            first as int,
            base as int,
            count as int,
        ),
        forall|i: int|
            0 <= i < final(chunks)@.len() ==> 0 < (#[trigger] final(chunks)@[i]).records
                <= CHUNK_RECORDS,
{
    let ghost start = chunk_places(g, chunks@);
    let size: u64 = g.record_size as u64;
    let mut done: u64 = 0;
    assert(chunk_places(g, chunks@) =~= start + places(g, first as int, base as int, 0));
    while done < count
        invariant
            done <= count,
            size == g.record_size,
            size > 0,
            first + count <= u64::MAX,
            base + count * size <= u64::MAX,
            chunk_places(g, chunks@) == start + places(
                g,
                first as int,
                base as int,
                done as int,
            ),
            forall|i: int|
                0 <= i < chunks@.len() ==> 0 < (#[trigger] chunks@[i]).records <= CHUNK_RECORDS,
        decreases count - done,
    {
        let left: u64 = count - done;
        let records: u64 = if left < CHUNK_RECORDS {
            left
        } else {
            CHUNK_RECORDS
        };
        assert(done * size <= count * size) by (nonlinear_arith)
            requires
                done <= count,
        ;
        let c = Chunk { offset: base + done * size, first: first + done, records };
        let ghost before = chunks@;
        chunks.push(c);
        proof {
            assert(chunks@.drop_last() =~= before);
            let here = places(g, c.first as int, c.offset as int, records as int);
            let prev = places(g, first as int, base as int, done as int);
            let next = places(g, first as int, base as int, done + records);
            assert forall|k: int| 0 <= k < next.len() implies next[k] == (prev + here)[k] by {
                if k >= prev.len() {
                    let j = k - done;
                    assert(base + k * size == (base + done * size) + j * size) by (nonlinear_arith)
                        requires
                            k == done + j,
                    ;
                }
            }
            assert(next =~= prev + here);
            assert(chunk_places(g, chunks@) =~= start + next);
        }
        done = done + records;
    }
}

impl Layout {
    /// The reads that take in every record of the table, in order.
    pub fn read_plan(&self, volume: &str) -> (r: IndexResult<Vec<Chunk>>)
        requires
            self.valid(),
        ensures
            r is Ok <==> runs_fit(self.geometry, self.runs@, 0, self.record_count as int),
            r matches Ok(chunks) ==> chunk_places(self.geometry, chunks@) == record_places(
                self.geometry,
                self.runs@,
                0,
                self.record_count as int,
            ),
            r matches Ok(chunks) ==> forall|i: int|
                0 <= i < chunks@.len() ==> 0 < (#[trigger] chunks@[i]).records <= CHUNK_RECORDS,
            r is Err ==> fails(r, volume@, "run beyond the volume"@),
    {
        let g = self.geometry;
        let count: u64 = self.record_count;
        let cluster: u64 = g.bytes_per_cluster as u64;
        let size: u64 = g.record_size as u64;
        let mut chunks: Vec<Chunk> = Vec::new();
        let mut first: u64 = 0;
        let mut i: usize = 0;
        let ghost all = record_places(g, self.runs@, 0, count as int);
        assert(self.runs@.skip(0) =~= self.runs@);
        assert(chunk_places(g, chunks@) + all =~= all);
        while i < self.runs.len() && first < count
            invariant
                i <= self.runs@.len(),
                g == self.geometry,
                count == self.record_count,
                cluster == g.bytes_per_cluster,
                size == g.record_size,
                cluster > 0,
                size > 0,
                runs_fit(g, self.runs@, 0, count as int) == runs_fit(
                    g,
                    self.runs@.skip(i as int),
                    first as int,
                    count as int,
                ),
                chunk_places(g, chunks@) + record_places(
                    g,
                    self.runs@.skip(i as int),
                    first as int,
                    count as int,
                ) == all,
                forall|k: int|
                    0 <= k < chunks@.len() ==> 0 < (#[trigger] chunks@[k]).records <= CHUNK_RECORDS,
            decreases self.runs@.len() - i,
        {
            let run = self.runs[i];
            let ghost left = self.runs@.skip(i as int);
            assert(left.drop_first() =~= self.runs@.skip(i + 1));
            assert(left[0] == run);
            let bytes: u64 = match run.clusters.checked_mul(cluster) {
                Some(b) => b,
                None => {
                    return Err(malformed(volume, "run beyond the volume"));
                },
            };
            let n: u64 = bytes / size;
            let next: u64 = match first.checked_add(n) {
                Some(v) => v,
                None => {
                    return Err(malformed(volume, "run beyond the volume"));
                },
            };
            if let Some(lcn) = run.start_lcn {
                let base: u64 = match lcn.checked_mul(cluster) {
                    Some(v) => v,
                    None => {
                        return Err(malformed(volume, "run beyond the volume"));
                    },
                };
                if base > u64::MAX - bytes {
                    return Err(malformed(volume, "run beyond the volume"));
                }
                let here: u64 = if n < count - first {
                    n
                } else {
                    count - first
                };
                proof {
                    assert(n * size <= bytes) by (nonlinear_arith)
                        requires
                            n == bytes / size,
                            size > 0,
                    ;
                    assert(here * size <= n * size) by (nonlinear_arith)
                        requires
                            here <= n,
                    ;
                }
                let ghost before = chunk_places(g, chunks@);
                push_chunks(&mut chunks, g, first, base, here);
                assert(chunk_places(g, chunks@) + record_places(
                    g,
                    left.drop_first(),
                    next as int,
                    count as int,
                ) =~= before + (places(g, first as int, base as int, here as int) + record_places(
                    g,
                    left.drop_first(),
                    next as int,
                    count as int,
                )));
            } else {
                let none: Ghost<Seq<(int, int)>> = Ghost(Seq::empty());
                assert(none@ + record_places(g, left.drop_first(), next as int, count as int)
                    =~= record_places(g, left.drop_first(), next as int, count as int));
            }
            first = next;
            i += 1;
        }
        assert(chunk_places(g, chunks@) + Seq::<(int, int)>::empty() =~= chunk_places(g, chunks@));
        Ok(chunks)
    }

    /// Where the record with the number `n` lies, if it lies anywhere in 64 bits.
    pub fn record_offset(&self, n: u64) -> (r: Option<u64>)
        requires
            self.valid(),
        ensures
            r is Some <==> (record_place(self.geometry, self.runs@, n as int) matches Some(off)
                && off <= u64::MAX),
            r matches Some(off) ==> record_place(self.geometry, self.runs@, n as int) == Some(
                off as int,
            ),
    {
        let g = self.geometry;
        let cluster: u128 = g.bytes_per_cluster as u128;
        let size: u128 = g.record_size as u128;
        let mut left: u128 = n as u128;
        let mut i: usize = 0;
        assert(self.runs@.skip(0) =~= self.runs@);
        while i < self.runs.len()
            invariant
                i <= self.runs@.len(),
                g == self.geometry,
                cluster == g.bytes_per_cluster,
                size == g.record_size,
                size > 0,
                left <= u64::MAX,
                record_place(g, self.runs@, n as int) == record_place(
                    g,
                    self.runs@.skip(i as int),
                    left as int,
                ),
            decreases self.runs@.len() - i,
        {
            let run = self.runs[i];
            let ghost rest = self.runs@.skip(i as int);
            assert(rest.drop_first() =~= self.runs@.skip(i + 1));
            assert(rest[0] == run);
            let bytes: u128 = wide_product(run.clusters, g.bytes_per_cluster);
            let records: u128 = bytes / size;
            if left < records {
                return match run.start_lcn {
                    None => None,
                    Some(lcn) => {
                        let base: u128 = wide_product(lcn, g.bytes_per_cluster);
                        let delta: u128 = wide_product(left as u64, g.record_size);
                        let at: u128 = base + delta;
                        if at <= u64::MAX as u128 {
                            Some(at as u64)
                        } else {
                            None
                        }
                    },
                };
            }
            left = left - records;
            i += 1;
        }
        None
    }
}

/// The product without overflow.
fn wide_product(a: u64, b: u32) -> (r: u128)
    ensures
        r == a * b,
        r <= 0x1_0000_0000_0000_0000_0000_0000,
{
    assert(a * b <= 0xFFFF_FFFF_FFFF_FFFF * 0xFFFF_FFFF) by (nonlinear_arith)
        requires
            a <= 0xFFFF_FFFF_FFFF_FFFF,
            b <= 0xFFFF_FFFF,
    ;
    a as u128 * b as u128
}

/// The reads of the plan agree with the single look-up: each record lies where
/// the plan reads it.
pub proof fn law_plan_places(
    g: Geometry,
    runs: Seq<Run>,
    first: int,
    count: int,
    at: int,
)
    requires
        g.record_size > 0,
        0 <= first,
        0 <= at < record_places(g, runs, first, count).len(),
    ensures
        ({
            let (n, off) = record_places(g, runs, first, count)[at];
            &&& first <= n < count
            &&& record_place(g, runs, n - first) == Some(off)
        }),
    decreases runs.len(),
{
    let n0 = run_records(g, runs[0]);
    lemma_run_records(g, runs[0]);
    let here = if n0 < count - first {
        n0
    } else {
        count - first
    };
    let head = match runs[0].start_lcn {
        Some(lcn) => places(g, first, lcn * g.bytes_per_cluster, here),
        None => Seq::empty(),
    };
    let tail = record_places(g, runs.drop_first(), first + n0, count);
    if at >= head.len() {
        assert(record_places(g, runs, first, count)[at] == tail[at - head.len()]);
        law_plan_places(g, runs.drop_first(), first + n0, count, at - head.len());
    } else {
        assert(record_places(g, runs, first, count)[at] == head[at]);
    }
}

proof fn lemma_run_records(g: Geometry, run: Run)
    requires
        g.record_size > 0,
    ensures
        run_records(g, run) >= 0,
{
    let b = run_bytes(g, run);
    let size = g.record_size as int;
    assert(b >= 0) by (nonlinear_arith)
        requires
            b == run.clusters * g.bytes_per_cluster,
    ;
    assert(b / size >= 0) by (nonlinear_arith)
        requires
            b >= 0,
            size > 0,
    ;
}

/// The plan reads the records in ascending order, and none twice.
pub proof fn law_plan_ascending(
    g: Geometry,
    runs: Seq<Run>,
    first: int,
    count: int,
    i: int,
    j: int,
)
    requires
        g.record_size > 0,
        0 <= first,
        0 <= i < j < record_places(g, runs, first, count).len(),
    ensures
        record_places(g, runs, first, count)[i].0 < record_places(g, runs, first, count)[j].0,
    decreases runs.len(),
{
    let n0 = run_records(g, runs[0]);
    lemma_run_records(g, runs[0]);
    let here = if n0 < count - first {
        n0
    } else {
        count - first
    };
    let head = match runs[0].start_lcn {
        Some(lcn) => places(g, first, lcn * g.bytes_per_cluster, here),
        None => Seq::empty(),
    };
    let all = record_places(g, runs, first, count);
    let tail = record_places(g, runs.drop_first(), first + n0, count);
    if i >= head.len() {
        assert(all[i] == tail[i - head.len()] && all[j] == tail[j - head.len()]);
        law_plan_ascending(
            g,
            runs.drop_first(),
            first + n0,
            count,
            i - head.len(),
            j - head.len(),
        );
    } else if j >= head.len() {
        assert(all[i] == head[i] && all[j] == tail[j - head.len()]);
        law_plan_places(g, runs.drop_first(), first + n0, count, j - head.len());
    } else {
        assert(all[i] == head[i] && all[j] == head[j]);
    }
}

/// The rows of the first `n` records in a buffer of records that start with the
/// record `first`.
pub open spec fn chunk_rows(buf: Seq<u8>, g: Geometry, first: int, n: int) -> Seq<RawView>
    decreases n,
{
    if n <= 0 {
        Seq::empty()
    } else {
        let size = g.record_size as int;
        chunk_rows(buf, g, first, n - 1) + record_rows(
            buf.subrange((n - 1) * size, n * size),
            (first + n - 1) as u64,
            g.bytes_per_sector as int,
        )
    }
}

/// Parse the records of a chunk that has been read into `buf`.
pub fn parse_chunk(buf: &Vec<u8>, g: Geometry, chunk: Chunk) -> (r: Vec<RawRecord>)
    requires
        g.record_size > 0,
        buf@.len() == chunk.records * g.record_size,
        chunk.first + chunk.records <= u64::MAX,
    ensures
        indexer::raw_views(r@) == chunk_rows(buf@, g, chunk.first as int, chunk.records as int),
{
    let size: usize = g.record_size as usize;
    let mut rows: Vec<RawRecord> = Vec::new();
    let mut k: u64 = 0;
    let mut at: usize = 0;
    assert(indexer::raw_views(rows@) =~= Seq::empty());
    let total: usize = buf.len();
    while k < chunk.records
        invariant
            k <= chunk.records,
            size == g.record_size,
            total == buf@.len(),
            at == k * size,
            buf@.len() == chunk.records * size,
            chunk.first + chunk.records <= u64::MAX,
            indexer::raw_views(rows@) == chunk_rows(buf@, g, chunk.first as int, k as int),
        decreases chunk.records - k,
    {
        assert((k + 1) * size <= chunk.records * size && (k + 1) * size == at + size)
            by (nonlinear_arith)
            requires
                k + 1 <= chunk.records,
                at == k * size,
        ;
        let rec = copy_part(buf.as_slice(), at, at + size);
        let ghost before = indexer::raw_views(rows@);
        let mut more = parse_file_record(rec, chunk.first + k, g.bytes_per_sector);
        let ghost added = indexer::raw_views(more@);
        rows.append(&mut more);
        assert(indexer::raw_views(rows@) =~= before + added);
        k += 1;
        at = at + size;
    }
    rows
}

} // verus!
