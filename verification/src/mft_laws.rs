//! Laws of the Master File Table: what the bytes of a record make of its rows.

use crate::byte_laws;
use crate::content;
use crate::indexer::RawView;
use crate::mft;
use crate::mft::{RecordMeta, ScanView};
use vstd::prelude::*;

verus! {

/// The type of the attribute at `o`.
pub open spec fn kind(b: Seq<u8>, o: int) -> int {
    byte_laws::four(b, o)
}

/// Where the content of the resident attribute at `o` starts.
pub open spec fn content_of(b: Seq<u8>, o: int) -> int {
    o + byte_laws::two(b, o + 0x14)
}

/// Whether the attributes of a record stand at the offsets `offs`, one behind the
/// other from `first` on, up to the end mark or the end of the used bytes: each has
/// room for its header and says in its fifth to eighth byte how long it is.
pub open spec fn laid_out(b: Seq<u8>, offs: Seq<int>, first: int, used: int) -> bool
    decreases offs.len(),
{
    if offs.len() == 0 {
        0 <= first && (first + 8 > used || (first + 4 <= b.len() && kind(b, first) == 0xFFFF_FFFF))
    } else {
        let next = first + byte_laws::four(b, first + 4);
        &&& offs[0] == first
        &&& 0 <= first
        &&& first + 0x18 <= b.len()
        &&& first + 0x18 <= used
        &&& kind(b, first) != 0xFFFF_FFFF
        &&& first + 0x18 <= next <= b.len()
        &&& laid_out(b, offs.drop_first(), next, used)
    }
}

/// Laid-out attributes are all found, in order, and each lies whole in the record.
proof fn lemma_found(b: Seq<u8>, offs: Seq<int>, first: int, used: int)
    requires
        laid_out(b, offs, first, used),
        used <= b.len(),
    ensures
        mft::attributes_from(b, first, used) == offs,
        forall|i: int| 0 <= i < offs.len() ==> 0 <= #[trigger] offs[i] && offs[i] + 0x18 <= b.len(),
    decreases offs.len(),
{
    if offs.len() == 0 {
        if first + 4 <= b.len() {
            byte_laws::law_low_byte_first(b, first);
        }
        assert(offs =~= Seq::empty());
    } else {
        byte_laws::law_low_byte_first(b, first);
        byte_laws::law_low_byte_first(b, first + 4);
        let rest = offs.drop_first();
        lemma_found(b, rest, first + byte_laws::four(b, first + 4), used);
        assert(seq![first] + rest =~= offs);
        assert forall|i: int| 0 <= i < offs.len() implies 0 <= #[trigger] offs[i] && offs[i] + 0x18
            <= b.len() by {
            if i > 0 {
                assert(offs[i] == rest[i - 1]);
            }
        }
    }
}

/// Whether the attribute at `o` is a link of the file: a whole `$FILE_NAME` that is no
/// DOS 8.3 alias.
pub open spec fn is_link(b: Seq<u8>, o: int) -> bool {
    let at = content_of(b, o);
    &&& kind(b, o) == 0x30
    &&& at + 0x42 <= b.len()
    &&& b[at + 0x41] != 2
    &&& at + 0x42 + 2 * b[at + 0x40] <= b.len()
}

/// Whether the attribute at `o` is an unnamed `$DATA` stream.
pub open spec fn is_main_data(b: Seq<u8>, o: int) -> bool {
    kind(b, o) == 0x80 && b[o + 9] == 0
}

/// Whether the attribute at `o` is `$STANDARD_INFORMATION` whose content lies in the
/// record.
pub open spec fn is_standard(b: Seq<u8>, o: int) -> bool {
    kind(b, o) == 0x10
}

/// The links among the attributes, in order.
pub open spec fn links_among(b: Seq<u8>, offs: Seq<int>) -> Seq<int>
    decreases offs.len(),
{
    if offs.len() == 0 {
        Seq::empty()
    } else if is_link(b, offs[0]) {
        seq![offs[0]] + links_among(b, offs.drop_first())
    } else {
        links_among(b, offs.drop_first())
    }
}

/// The record number of the directory that the link at `o` stands in: the low 48 bits
/// of the reference at the start of the content.
pub open spec fn link_parent(b: Seq<u8>, o: int) -> int {
    let at = content_of(b, o);
    byte_laws::four(b, at) + 0x1_0000_0000 * byte_laws::two(b, at + 4)
}

/// The name of the link at `o`: as many UTF-16 units as its length byte says.
pub open spec fn link_name(b: Seq<u8>, o: int) -> Seq<char> {
    let at = content_of(b, o);
    content::utf16_text(
        Seq::new(
            b[at + 0x40] as nat,
            |i: int| byte_laws::two(b, at + 0x42 + 2 * i) as u16,
        ),
    )
}

/// The size that the data stream at `o` says: the length of its value when it is
/// resident, and its real size when it is not.
pub open spec fn stream_size(b: Seq<u8>, o: int) -> int {
    if b[o + 8] == 0 {
        byte_laws::four(b, o + 0x10)
    } else {
        byte_laws::eight(b, o + 0x30)
    }
}

pub(crate) proof fn lemma_units(s: Seq<u8>)
    requires
        s.len() % 2 == 0,
    ensures
        content::units(s, true) == Seq::new(
            (s.len() / 2) as nat,
            |i: int| byte_laws::two(s, 2 * i) as u16,
        ),
    decreases s.len(),
{
    let all = Seq::new((s.len() / 2) as nat, |i: int| byte_laws::two(s, 2 * i) as u16);
    if s.len() >= 2 {
        let rest = s.skip(2);
        lemma_units(rest);
        assert(content::units(s, true) =~= all) by {
            assert forall|i: int| 0 <= i < all.len() implies content::units(s, true)[i]
                == all[i] by {
                if i > 0 {
                    assert(rest[2 * (i - 1)] == s[2 * i] && rest[2 * (i - 1) + 1] == s[2 * i + 1]);
                }
            }
        }
    } else {
        assert(content::units(s, true) =~= all);
    }
}

/// What the name of a link is.
proof fn lemma_link(b: Seq<u8>, o: int)
    requires
        0 <= o,
        o + 0x18 <= b.len(),
        kind(b, o) == 0x30,
    ensures
        mft::u32_at(b, o) == 0x30,
        mft::content_at(b, o) == content_of(b, o),
        is_link(b, o) <==> mft::file_name(b, o) is Some,
        is_link(b, o) ==> mft::file_name(b, o) == Some(
            (link_parent(b, o) as u64, link_name(b, o)),
        ),
{
    byte_laws::law_low_byte_first(b, o);
    byte_laws::law_low_byte_first(b, o + 0x14);
    let at = content_of(b, o);
    if is_link(b, o) {
        byte_laws::law_low_byte_first(b, at);
        let n = b[at + 0x40] as int;
        let s = b.subrange(at + 0x42, at + 0x42 + 2 * n);
        lemma_units(s);
        assert(content::units(s, true) =~= Seq::new(
            n as nat,
            |i: int| byte_laws::two(b, at + 0x42 + 2 * i) as u16,
        ));
        let high = byte_laws::two(b, at + 6);
        assert(mft::u64_at(b, at) == link_parent(b, o) + 0x1_0000_0000_0000 * high);
        assert(mft::u64_at(b, at) % 0x1_0000_0000_0000 == link_parent(b, o));
    }
}

/// The names that a scan adds are those of the links.
proof fn lemma_scan_names(b: Seq<u8>, offs: Seq<int>, s: ScanView)
    requires
        forall|i: int| 0 <= i < offs.len() ==> 0 <= #[trigger] offs[i] && offs[i] + 0x18 <= b.len(),
    ensures
        ({
            let links = links_among(b, offs);
            let names = mft::scan_all(b, offs, s).names;
            &&& names.len() == s.names.len() + links.len()
            &&& forall|i: int| 0 <= i < s.names.len() ==> names[i] == s.names[i]
            &&& forall|j: int|
                0 <= j < links.len() ==> #[trigger] names[s.names.len() + j] == (
                    link_parent(b, links[j]) as u64,
                    link_name(b, links[j]),
                )
        }),
    decreases offs.len(),
{
    if offs.len() > 0 {
        let o = offs[0];
        let rest = offs.drop_first();
        assert forall|i: int| 0 <= i < rest.len() implies 0 <= #[trigger] rest[i] && rest[i] + 0x18
            <= b.len() by {
            assert(rest[i] == offs[i + 1]);
        }
        let next = mft::scanned(b, o, s);
        byte_laws::law_low_byte_first(b, o);
        if kind(b, o) == 0x30 {
            lemma_link(b, o);
        }
        lemma_scan_names(b, rest, next);
        let links = links_among(b, offs);
        let names = mft::scan_all(b, offs, s).names;
        assert forall|j: int| 0 <= j < links.len() implies #[trigger] names[s.names.len() + j] == (
            link_parent(b, links[j]) as u64,
            link_name(b, links[j]),
        ) by {
            if is_link(b, o) {
                if j == 0 {
                    assert(names[s.names.len() as int] == next.names[s.names.len() as int]);
                } else {
                    assert(links_among(b, rest)[j - 1] == links[j]);
                    assert(names[next.names.len() + (j - 1)] == (
                        link_parent(b, links[j]) as u64,
                        link_name(b, links[j]),
                    ));
                }
            }
        }
    }
}

/// The size by the unnamed stream stays through attributes that are no unnamed stream.
proof fn lemma_scan_data(b: Seq<u8>, offs: Seq<int>, s: ScanView)
    requires
        forall|i: int| 0 <= i < offs.len() ==> 0 <= #[trigger] offs[i] && offs[i] + 0x18 <= b.len(),
        forall|i: int| 0 <= i < offs.len() ==> !is_main_data(b, #[trigger] offs[i]),
    ensures
        mft::scan_all(b, offs, s).data_size == s.data_size,
    decreases offs.len(),
{
    if offs.len() > 0 {
        let rest = offs.drop_first();
        assert forall|i: int| 0 <= i < rest.len() implies 0 <= #[trigger] rest[i] && rest[i] + 0x18
            <= b.len() && !is_main_data(b, rest[i]) by {
            assert(rest[i] == offs[i + 1]);
        }
        byte_laws::law_low_byte_first(b, offs[0]);
        assert(!is_main_data(b, offs[0]));
        lemma_scan_data(b, rest, mft::scanned(b, offs[0], s));
    }
}

/// The last unnamed stream says the size.
proof fn lemma_scan_one_data(b: Seq<u8>, offs: Seq<int>, s: ScanView, d: int)
    requires
        forall|i: int| 0 <= i < offs.len() ==> 0 <= #[trigger] offs[i] && offs[i] + 0x18 <= b.len(),
        0 <= d < offs.len(),
        is_main_data(b, offs[d]),
        b[offs[d] + 8] != 0 ==> offs[d] + 0x38 <= b.len(),
        forall|i: int| d < i < offs.len() ==> !is_main_data(b, #[trigger] offs[i]),
    ensures
        mft::scan_all(b, offs, s).data_size == Some(stream_size(b, offs[d]) as u64),
    decreases offs.len(),
{
    let rest = offs.drop_first();
    assert forall|i: int| 0 <= i < rest.len() implies 0 <= #[trigger] rest[i] && rest[i] + 0x18
        <= b.len() by {
        assert(rest[i] == offs[i + 1]);
    }
    assert forall|i: int| 0 <= i < rest.len() && i >= d implies !is_main_data(
        b,
        #[trigger] rest[i],
    ) by {
        assert(rest[i] == offs[i + 1]);
    }
    let o = offs[0];
    byte_laws::law_low_byte_first(b, o);
    if d == 0 {
        byte_laws::law_low_byte_first(b, o + 0x10);
        byte_laws::law_low_byte_first(b, o + 0x30);
        lemma_scan_data(b, rest, mft::scanned(b, o, s));
    } else {
        assert(rest[d - 1] == offs[d]);
        lemma_scan_one_data(b, rest, mft::scanned(b, o, s), d - 1);
    }
}

/// The size by a name stays through attributes that are no links.
proof fn lemma_scan_no_link(b: Seq<u8>, offs: Seq<int>, s: ScanView)
    requires
        forall|i: int| 0 <= i < offs.len() ==> 0 <= #[trigger] offs[i] && offs[i] + 0x18 <= b.len(),
        forall|i: int| 0 <= i < offs.len() ==> !is_link(b, #[trigger] offs[i]),
    ensures
        mft::scan_all(b, offs, s).name_size == s.name_size,
    decreases offs.len(),
{
    if offs.len() > 0 {
        let rest = offs.drop_first();
        assert forall|i: int| 0 <= i < rest.len() implies 0 <= #[trigger] rest[i] && rest[i] + 0x18
            <= b.len() && !is_link(b, rest[i]) by {
            assert(rest[i] == offs[i + 1]);
        }
        byte_laws::law_low_byte_first(b, offs[0]);
        if kind(b, offs[0]) == 0x30 {
            lemma_link(b, offs[0]);
        }
        assert(!is_link(b, offs[0]));
        lemma_scan_no_link(b, rest, mft::scanned(b, offs[0], s));
    }
}

/// The last link says the size that a record without data has.
proof fn lemma_scan_last_link(b: Seq<u8>, offs: Seq<int>, s: ScanView, d: int)
    requires
        forall|i: int| 0 <= i < offs.len() ==> 0 <= #[trigger] offs[i] && offs[i] + 0x18 <= b.len(),
        0 <= d < offs.len(),
        is_link(b, offs[d]),
        forall|i: int| d < i < offs.len() ==> !is_link(b, #[trigger] offs[i]),
    ensures
        mft::scan_all(b, offs, s).name_size == Some(
            byte_laws::eight(b, content_of(b, offs[d]) + 0x30) as u64,
        ),
    decreases offs.len(),
{
    let rest = offs.drop_first();
    assert forall|i: int| 0 <= i < rest.len() implies 0 <= #[trigger] rest[i] && rest[i] + 0x18
        <= b.len() by {
        assert(rest[i] == offs[i + 1]);
    }
    assert forall|i: int| 0 <= i < rest.len() && i >= d implies !is_link(b, #[trigger] rest[i]) by {
        assert(rest[i] == offs[i + 1]);
    }
    let o = offs[0];
    byte_laws::law_low_byte_first(b, o);
    if d == 0 {
        lemma_link(b, o);
        byte_laws::law_low_byte_first(b, content_of(b, o) + 0x30);
        lemma_scan_no_link(b, rest, mft::scanned(b, o, s));
    } else {
        assert(rest[d - 1] == offs[d]);
        lemma_scan_last_link(b, rest, mft::scanned(b, o, s), d - 1);
    }
}

/// The times and attributes stay through attributes that are no standard information.
proof fn lemma_scan_no_standard(b: Seq<u8>, offs: Seq<int>, s: ScanView)
    requires
        forall|i: int| 0 <= i < offs.len() ==> 0 <= #[trigger] offs[i] && offs[i] + 0x18 <= b.len(),
        forall|i: int| 0 <= i < offs.len() ==> !is_standard(b, #[trigger] offs[i]),
    ensures
        ({
            let r = mft::scan_all(b, offs, s);
            &&& r.created_ft == s.created_ft
            &&& r.modified_ft == s.modified_ft
            &&& r.accessed_ft == s.accessed_ft
            &&& r.attributes == s.attributes
        }),
    decreases offs.len(),
{
    if offs.len() > 0 {
        let rest = offs.drop_first();
        assert forall|i: int| 0 <= i < rest.len() implies 0 <= #[trigger] rest[i] && rest[i] + 0x18
            <= b.len() && !is_standard(b, rest[i]) by {
            assert(rest[i] == offs[i + 1]);
        }
        byte_laws::law_low_byte_first(b, offs[0]);
        assert(!is_standard(b, offs[0]));
        lemma_scan_no_standard(b, rest, mft::scanned(b, offs[0], s));
    }
}

proof fn lemma_scan_standard(b: Seq<u8>, offs: Seq<int>, s: ScanView, d: int)
    requires
        forall|i: int| 0 <= i < offs.len() ==> 0 <= #[trigger] offs[i] && offs[i] + 0x18 <= b.len(),
        0 <= d < offs.len(),
        is_standard(b, offs[d]),
        content_of(b, offs[d]) + 0x24 <= b.len(),
        forall|i: int| d < i < offs.len() ==> !is_standard(b, #[trigger] offs[i]),
    ensures
        ({
            let r = mft::scan_all(b, offs, s);
            let at = content_of(b, offs[d]);
            &&& r.created_ft == byte_laws::eight(b, at)
            &&& r.modified_ft == byte_laws::eight(b, at + 8)
            &&& r.accessed_ft == byte_laws::eight(b, at + 24)
            &&& r.attributes == byte_laws::four(b, at + 32)
        }),
    decreases offs.len(),
{
    let rest = offs.drop_first();
    assert forall|i: int| 0 <= i < rest.len() implies 0 <= #[trigger] rest[i] && rest[i] + 0x18
        <= b.len() by {
        assert(rest[i] == offs[i + 1]);
    }
    assert forall|i: int| 0 <= i < rest.len() && i >= d implies !is_standard(
        b,
        #[trigger] rest[i],
    ) by {
        assert(rest[i] == offs[i + 1]);
    }
    let o = offs[0];
    byte_laws::law_low_byte_first(b, o);
    if d == 0 {
        byte_laws::law_low_byte_first(b, o + 0x14);
        let at = content_of(b, o);
        byte_laws::law_low_byte_first(b, at);
        byte_laws::law_low_byte_first(b, at + 8);
        byte_laws::law_low_byte_first(b, at + 24);
        byte_laws::law_low_byte_first(b, at + 32);
        lemma_scan_no_standard(b, rest, mft::scanned(b, o, s));
    } else {
        assert(rest[d - 1] == offs[d]);
        lemma_scan_standard(b, rest, mft::scanned(b, o, s), d - 1);
    }
}

/// Whether `rec` is a record in use whose attributes, once its fixups are applied, stand
/// at `offs`.
pub open spec fn record_laid_out(rec: Seq<u8>, sector: int, offs: Seq<int>) -> bool {
    &&& rec.len() >= 0x30
    &&& rec[0] == 'F' as u8 && rec[1] == 'I' as u8 && rec[2] == 'L' as u8 && rec[3] == 'E' as u8
    &&& rec[0x16] & 1 != 0
    &&& mft::fixed(rec, sector).len() == rec.len()
    &&& byte_laws::four(rec, 0x18) <= rec.len()
    &&& laid_out(
        mft::fixed(rec, sector),
        offs,
        byte_laws::two(rec, 0x14),
        byte_laws::four(rec, 0x18),
    )
}

/// The bits of the record header's flags.
proof fn lemma_flags(rec: Seq<u8>)
    requires
        rec.len() >= 0x30,
    ensures
        mft::u16_at(rec, 0x16) % 2 == 1 <==> rec[0x16] & 1 != 0,
        mft::is_directory(rec) <==> rec[0x16] & 2 != 0,
{
    byte_laws::law_low_byte_first(rec, 0x16);
    let f = rec[0x16];
    let g = rec[0x17];
    assert(f & 1 != 0 <==> f % 2 == 1) by (bit_vector);
    assert(f & 2 != 0 <==> f / 2 % 2 == 1) by (bit_vector);
}

proof fn lemma_record(rec: Seq<u8>, sector: int, offs: Seq<int>)
    requires
        record_laid_out(rec, sector, offs),
    ensures
        mft::in_use(rec),
        mft::is_directory(rec) <==> rec[0x16] & 2 != 0,
        mft::scan_record(rec, sector) == mft::scan_all(
            mft::fixed(rec, sector),
            offs,
            ScanView::empty(),
        ),
        forall|i: int|
            0 <= i < offs.len() ==> 0 <= #[trigger] offs[i] && offs[i] + 0x18 <= rec.len(),
{
    lemma_flags(rec);
    byte_laws::law_low_byte_first(rec, 0x14);
    byte_laws::law_low_byte_first(rec, 0x18);
    lemma_found(
        mft::fixed(rec, sector),
        offs,
        byte_laws::two(rec, 0x14),
        byte_laws::four(rec, 0x18),
    );
}

/// A record gives one row for each link, in their order, with the link's directory and
/// name, and all of them carry the record's number and whether it is a directory. A DOS
/// alias gives none.
pub proof fn law_row_per_link(rec: Seq<u8>, record_no: u64, sector: int, offs: Seq<int>)
    requires
        record_laid_out(rec, sector, offs),
    ensures
        ({
            let b = mft::fixed(rec, sector);
            let links = links_among(b, offs);
            let rows = mft::record_rows(rec, record_no, sector);
            &&& rows.len() == links.len()
            &&& forall|j: int|
                0 <= j < rows.len() ==> {
                    let row = #[trigger] rows[j];
                    &&& row.record_no == record_no
                    &&& row.parent_no == link_parent(b, links[j]) as u64
                    &&& row.name == link_name(b, links[j])
                    &&& row.is_dir == (rec[0x16] & 2 != 0)
                }
        }),
{
    let b = mft::fixed(rec, sector);
    lemma_record(rec, sector, offs);
    lemma_scan_names(b, offs, ScanView::empty());
    let links = links_among(b, offs);
    let names = mft::scan_record(rec, sector).names;
    let rows = mft::record_rows(rec, record_no, sector);
    assert forall|j: int| 0 <= j < rows.len() implies {
        let row = #[trigger] rows[j];
        &&& row.record_no == record_no
        &&& row.parent_no == link_parent(b, links[j]) as u64
        &&& row.name == link_name(b, links[j])
        &&& row.is_dir == (rec[0x16] & 2 != 0)
    } by {
        assert(names[0 + j] == (link_parent(b, links[j]) as u64, link_name(b, links[j])));
    }
}

/// The size of a file does not depend on its named data streams: every row of a file
/// with one unnamed stream has the size of that stream, whatever else stands before or
/// after it.
pub proof fn law_unnamed_stream_size(
    rec: Seq<u8>,
    record_no: u64,
    sector: int,
    offs: Seq<int>,
    d: int,
    j: int,
)
    requires
        record_laid_out(rec, sector, offs),
        rec[0x16] & 2 == 0,
        0 <= d < offs.len(),
        is_main_data(mft::fixed(rec, sector), offs[d]),
        mft::fixed(rec, sector)[offs[d] + 8] != 0 ==> offs[d] + 0x38 <= rec.len(),
        forall|i: int|
            0 <= i < offs.len() && i != d ==> !is_main_data(
                mft::fixed(rec, sector),
                #[trigger] offs[i],
            ),
        0 <= j < mft::record_rows(rec, record_no, sector).len(),
    ensures
        mft::record_rows(rec, record_no, sector)[j].size == Some(
            stream_size(mft::fixed(rec, sector), offs[d]) as u64,
        ),
        mft::meta_of(rec, sector).size == Some(
            stream_size(mft::fixed(rec, sector), offs[d]) as u64,
        ),
{
    lemma_record(rec, sector, offs);
    lemma_scan_one_data(mft::fixed(rec, sector), offs, ScanView::empty(), d);
}

/// A file without an unnamed stream has the size that its last link says.
pub proof fn law_link_size(
    rec: Seq<u8>,
    record_no: u64,
    sector: int,
    offs: Seq<int>,
    d: int,
    j: int,
)
    requires
        record_laid_out(rec, sector, offs),
        rec[0x16] & 2 == 0,
        forall|i: int|
            0 <= i < offs.len() ==> !is_main_data(mft::fixed(rec, sector), #[trigger] offs[i]),
        0 <= d < offs.len(),
        is_link(mft::fixed(rec, sector), offs[d]),
        forall|i: int|
            d < i < offs.len() ==> !is_link(mft::fixed(rec, sector), #[trigger] offs[i]),
        0 <= j < mft::record_rows(rec, record_no, sector).len(),
    ensures
        mft::record_rows(rec, record_no, sector)[j].size == Some(
            byte_laws::eight(
                mft::fixed(rec, sector),
                content_of(mft::fixed(rec, sector), offs[d]) + 0x30,
            ) as u64,
        ),
{
    lemma_record(rec, sector, offs);
    lemma_scan_data(mft::fixed(rec, sector), offs, ScanView::empty());
    lemma_scan_last_link(mft::fixed(rec, sector), offs, ScanView::empty(), d);
}

/// The times and attributes of a row are those of the standard information: the
/// creation time at its start, the modification time at 8, the access time at 24, the
/// attributes at 32, but for the directory bit, which the record header decides.
pub proof fn law_standard_information(
    rec: Seq<u8>,
    record_no: u64,
    sector: int,
    offs: Seq<int>,
    d: int,
    j: int,
)
    requires
        record_laid_out(rec, sector, offs),
        0 <= d < offs.len(),
        is_standard(mft::fixed(rec, sector), offs[d]),
        content_of(mft::fixed(rec, sector), offs[d]) + 0x24 <= rec.len(),
        forall|i: int|
            0 <= i < offs.len() && i != d ==> !is_standard(
                mft::fixed(rec, sector),
                #[trigger] offs[i],
            ),
        0 <= j < mft::record_rows(rec, record_no, sector).len(),
    ensures
        ({
            let b = mft::fixed(rec, sector);
            let at = content_of(b, offs[d]);
            let row: RawView = mft::record_rows(rec, record_no, sector)[j];
            &&& row.created_ft == byte_laws::eight(b, at)
            &&& row.modified_ft == byte_laws::eight(b, at + 8)
            &&& row.accessed_ft == byte_laws::eight(b, at + 24)
            &&& row.attributes & !0x10u32 == (byte_laws::four(b, at + 32) as u32) & !0x10u32
            &&& row.attributes & 0x10 != 0 <==> rec[0x16] & 2 != 0
        }),
{
    lemma_record(rec, sector, offs);
    lemma_scan_standard(mft::fixed(rec, sector), offs, ScanView::empty(), d);
    let a = mft::scan_record(rec, sector).attributes;
    assert((a | 0x10) & !0x10u32 == a & !0x10u32) by (bit_vector);
    assert((a & !0x10u32) & !0x10u32 == a & !0x10u32) by (bit_vector);
    assert((a | 0x10) & 0x10 != 0) by (bit_vector);
    assert((a & !0x10u32) & 0x10 == 0) by (bit_vector);
}

/// Only a record with the signature `FILE` and the in-use flag gives rows.
pub proof fn law_rows_in_use(rec: Seq<u8>, record_no: u64, sector: int)
    requires
        mft::record_rows(rec, record_no, sector).len() > 0,
    ensures
        rec.len() >= 0x30,
        rec[0] == 'F' as u8 && rec[1] == 'I' as u8 && rec[2] == 'L' as u8 && rec[3] == 'E' as u8,
        rec[0x16] & 1 != 0,
{
    lemma_flags(rec);
}

/// The fixups put back the last two bytes of each sector: those of the `k`-th sector
/// come from the `k`-th entry behind the check value in the update-sequence array, where
/// the array lies in the first sector before its end.
pub proof fn law_fixup_restores(rec: Seq<u8>, sector: int, k: int)
    requires
        rec.len() >= 8,
        sector >= 8,
        ({
            let usa = byte_laws::two(rec, 4);
            let count = byte_laws::two(rec, 6);
            &&& usa + 2 * count <= sector - 2
            &&& (count - 1) * sector <= rec.len()
            &&& 1 <= k < count
        }),
    ensures
        ({
            let usa = byte_laws::two(rec, 4);
            let b = mft::fixed(rec, sector);
            &&& b[k * sector - 2] == rec[usa + 2 * k]
            &&& b[k * sector - 1] == rec[usa + 2 * k + 1]
        }),
{
    byte_laws::law_low_byte_first(rec, 4);
    byte_laws::law_low_byte_first(rec, 6);
    lemma_restored(rec, rec, byte_laws::two(rec, 4), byte_laws::two(rec, 6), sector, 1, k);
}

/// The fixups from sector `i` on, where `now` is `rec` with the sectors before restored.
proof fn lemma_restored(
    rec: Seq<u8>,
    now: Seq<u8>,
    usa: int,
    count: int,
    sector: int,
    i: int,
    k: int,
)
    requires
        sector >= 8,
        usa >= 0,
        usa + 2 * count <= sector - 2,
        (count - 1) * sector <= rec.len(),
        1 <= i <= count,
        1 <= k < count,
        now.len() == rec.len(),
        forall|at: int| 0 <= at < sector - 2 && at < rec.len() ==> now[at] == rec[at],
        k < i ==> now[k * sector - 2] == rec[usa + 2 * k] && now[k * sector - 1] == rec[usa + 2 * k
            + 1],
    ensures
        ({
            let b = mft::fixed_from(now, usa, count, sector, i);
            &&& b[k * sector - 2] == rec[usa + 2 * k]
            &&& b[k * sector - 1] == rec[usa + 2 * k + 1]
        }),
    decreases count - i,
{
    if i < count {
        let pos = i * sector - 2;
        let fx = usa + i * 2;
        assert(sector <= i * sector <= (count - 1) * sector) by (nonlinear_arith)
            requires
                1 <= i <= count - 1,
                sector >= 8,
        ;
        if k < i {
            assert(k * sector <= i * sector - sector) by (nonlinear_arith)
                requires
                    k <= i - 1,
                    sector >= 8,
            ;
            assert(k * sector >= sector) by (nonlinear_arith)
                requires
                    k >= 1,
                    sector >= 8,
            ;
        }
        assert(fx + 2 <= rec.len());
        let one = now.update(pos, now[fx]);
        let two = one.update(pos + 1, one[fx + 1]);
        lemma_restored(rec, two, usa, count, sector, i + 1, k);
    }
}

/// A re-read of a record counts only where the record is in use and still has the sequence
/// number that was reported, and says what its rows say.
pub proof fn law_meta(rec: Vec<u8>, sector: u16, seq: u16, r: Option<RecordMeta>, no: u64, k: int)
    requires
        call_ensures(mft::parse_meta, (rec, sector, seq), r),
    ensures
        r is Some <==> rec@.len() >= 0x30 && rec@[0] == 'F' as u8 && rec@[1] == 'I' as u8 && rec@[2]
            == 'L' as u8 && rec@[3] == 'E' as u8 && rec@[0x16] % 2 == 1 && byte_laws::two(
            rec@,
            0x10,
        ) == seq,
        r matches Some(m) ==> 0 <= k < mft::record_rows(rec@, no, sector as int).len() ==> {
            let row = mft::record_rows(rec@, no, sector as int)[k];
            &&& row.size == m.size
            &&& row.modified_ft == m.modified_ft
            &&& row.created_ft == m.created_ft
            &&& row.accessed_ft == m.accessed_ft
            &&& row.attributes == m.attributes
        },
{
    byte_laws::law_low_byte_first(rec@, 0x10);
    byte_laws::law_low_byte_first(rec@, 0x16);
    if rec@.len() >= 0x30 {
        let (a, b) = (rec@[0x16] as int, rec@[0x17] as int);
        assert((a + 0x100 * b) % 2 == a % 2);
    }
}

} // verus!
