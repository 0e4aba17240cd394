//! Laws of where the Master File Table stands on its volume.

use crate::byte_laws;
use crate::bytes;
use crate::error::IndexResult;
use crate::indexer::RawView;
use crate::mft;
use crate::mft::{Chunk, Geometry, Layout, Run};
use vstd::arithmetic::power2;
use vstd::prelude::*;

verus! {

proof fn lemma_power(n: nat)
    ensures
        crate::size::pow2(n) == power2::pow2(n),
    decreases n,
{
    if n == 0 {
        power2::lemma2_to64();
    } else {
        lemma_power((n - 1) as nat);
        power2::lemma_pow2_unfold(n);
    }
}

/// What the boot sector says of a volume: `NTFS` stands from its fourth byte on, the bytes
/// of a sector at 11, the sectors of a cluster at 13, the cluster of the table at 48, and
/// at 64 the clusters of a record, or, counted down from 256, the power of two that its
/// bytes are.
#[verifier::rlimit(40)]
pub proof fn law_boot(boot: Vec<u8>, volume: &str, r: IndexResult<Geometry>)
    requires
        boot@.len() >= 512,
        call_ensures(mft::parse_boot, (&boot, volume), r),
    ensures
        r matches Ok(g) ==> {
            let b = boot@;
            let c = b[0x40] as int;
            let cluster = byte_laws::two(b, 11) * b[13];
            &&& b[3] == 'N' as u8 && b[4] == 'T' as u8 && b[5] == 'F' as u8 && b[6] == 'S' as u8
            &&& b[7] == 0x20 && b[8] == 0x20 && b[9] == 0x20 && b[10] == 0x20
            &&& g.bytes_per_sector == byte_laws::two(b, 11)
            &&& g.bytes_per_cluster == cluster && cluster > 0
            &&& g.record_size == if c < 128 {
                c * cluster
            } else {
                power2::pow2((256 - c) as nat) as int
            }
            &&& g.record_size > 0
            &&& g.mft_offset == byte_laws::eight(b, 48) * cluster
        },
        ({
            let b = boot@;
            let c = b[0x40] as int;
            let cluster = byte_laws::two(b, 11) * b[13];
            &&& b[3] == 'N' as u8 && b[4] == 'T' as u8 && b[5] == 'F' as u8 && b[6] == 'S' as u8
            &&& b[7] == 0x20 && b[8] == 0x20 && b[9] == 0x20 && b[10] == 0x20
            &&& cluster > 0
            &&& 0 < c < 128 || 224 < c
            &&& byte_laws::eight(b, 48) * cluster <= u64::MAX
        }) ==> r is Ok,
{
    let b = boot@;
    let c = b[0x40] as int;
    byte_laws::law_low_byte_first(b, 11);
    byte_laws::law_low_byte_first(b, 48);
    let cluster = byte_laws::two(b, 11) * b[13];
    assert(mft::cluster_bytes(b) == cluster);
    let mark = seq![0x4Eu8, 0x54, 0x46, 0x53, 0x20, 0x20, 0x20, 0x20];
    if c >= 128 {
        lemma_power((256 - c) as nat);
        power2::lemma_pow2_pos((256 - c) as nat);
    } else {
        assert(c > 0 && cluster > 0 ==> c * cluster > 0) by (nonlinear_arith);
        assert(c == 0 ==> c * cluster == 0);
    }
    let at = b.subrange(3, 11);
    if mft::is_ntfs(b) {
        assert(at == mark);
        assert(at[0] == b[3] && at[1] == b[4] && at[2] == b[5] && at[3] == b[6] && at[4] == b[7]
            && at[5] == b[8] && at[6] == b[9] && at[7] == b[10]);
    } else if b[3] == 0x4E && b[4] == 0x54 && b[5] == 0x46 && b[6] == 0x53 && b[7] == 0x20 && b[8]
        == 0x20 && b[9] == 0x20 && b[10] == 0x20 {
        assert(at =~= mark);
    }
}

/// The number in the bytes, the low ones first.
pub open spec fn number(s: Seq<u8>) -> int
    decreases s.len(),
{
    if s.len() == 0 {
        0
    } else {
        s.first() + 256 * number(s.drop_first())
    }
}

/// The number in the bytes with the sign in the top bit of the last one.
pub open spec fn signed_number(s: Seq<u8>) -> int
    decreases s.len(),
{
    if s.len() == 0 {
        0
    } else if s.len() == 1 {
        if s[0] >= 128 {
            s[0] - 256
        } else {
            s[0] as int
        }
    } else {
        s.first() + 256 * signed_number(s.drop_first())
    }
}

proof fn lemma_number(s: Seq<u8>)
    ensures
        bytes::le(s) == number(s),
        0 <= number(s) < bytes::pow256(s.len()),
        s.len() > 0 ==> bytes::signed(number(s), bytes::pow256(s.len()) as int) == signed_number(s),
    decreases s.len(),
{
    if s.len() > 0 {
        let t = s.drop_first();
        lemma_number(t);
        if s.len() == 1 {
            assert(number(t) == 0);
            assert(bytes::pow256(0) == 1);
        }
    }
}

/// A run of a run list is read as it was written: a byte that counts the bytes of its
/// length in its lower half and those of its offset in its upper half, then the clusters
/// of its length, then how many clusters it starts behind the last run that has a start. A
/// run without an offset has no place.
#[verifier::rlimit(40)]
pub proof fn law_run(len: Seq<u8>, offset: Seq<u8>, rest: Seq<u8>, prev: int)
    requires
        1 <= len.len() <= 8,
        offset.len() <= 8,
        i64::MIN <= prev + signed_number(offset) <= i64::MAX,
    ensures
        ({
            let head = (16 * offset.len() + len.len()) as u8;
            let next = prev + signed_number(offset);
            let run = Run {
                start_lcn: if offset.len() == 0 {
                    None
                } else if next < 0 {
                    Some((next + 0x1_0000_0000_0000_0000) as u64)
                } else {
                    Some(next as u64)
                },
                clusters: number(len) as u64,
            };
            mft::runs_from(seq![head] + len + offset + rest, prev) == seq![run] + mft::runs_from(
                rest,
                next,
            )
        }),
{
    let (n, m) = (len.len() as int, offset.len() as int);
    let head = (16 * offset.len() + len.len()) as u8;
    let b = seq![head] + len + offset + rest;
    assert(b[0] == head);
    assert(head as int % 16 == n && head as int / 16 == m);
    assert(b.subrange(1, 1 + n) =~= len);
    assert(b.subrange(1 + n, 1 + n + m) =~= offset);
    assert(b.skip(1 + n + m) =~= rest);
    lemma_number(len);
    lemma_number(offset);
    if m == 0 {
        assert(b.skip(1 + n) =~= rest);
    }
}

/// A run list ends at a zero byte, at its end and at a run that is cut off.
pub proof fn law_runs_end(b: Seq<u8>, prev: int)
    requires
        b.len() == 0 || b[0] == 0 || b[0] as int % 16 + b[0] as int / 16 >= b.len(),
    ensures
        mft::runs_from(b, prev) == Seq::<Run>::empty(),
{
}

/// Where a byte of a file stands on the volume, by the runs of the file.
pub open spec fn byte_place(g: Geometry, runs: Seq<Run>, x: int) -> Option<int>
    decreases runs.len(),
{
    if runs.len() == 0 {
        None
    } else {
        let run = runs.first();
        let held = run.clusters * g.bytes_per_cluster;
        if x < held {
            match run.start_lcn {
                Some(cluster) => Some(cluster * g.bytes_per_cluster + x),
                None => None,
            }
        } else {
            byte_place(g, runs.drop_first(), x - held)
        }
    }
}

/// Whether each run holds whole records.
pub open spec fn holds_whole(g: Geometry, runs: Seq<Run>) -> bool {
    forall|i: int|
        0 <= i < runs.len() ==> ((#[trigger] runs[i]).clusters * g.bytes_per_cluster)
            % g.record_size as int == 0
}

/// Records stand one behind the other: where each run holds whole records, the place of a
/// record is that of the byte of the table behind all the earlier ones.
pub proof fn law_record_place(g: Geometry, runs: Seq<Run>, n: int)
    requires
        g.record_size > 0,
        holds_whole(g, runs),
        n >= 0,
    ensures
        mft::record_place(g, runs, n) == byte_place(g, runs, n * g.record_size),
    decreases runs.len(),
{
    if runs.len() > 0 {
        let size = g.record_size as int;
        let held = runs[0].clusters * g.bytes_per_cluster;
        let k = held / size;
        assert(held % size == 0);
        assert(held == k * size) by (nonlinear_arith)
            requires
                k == held / size,
                held % size == 0,
                size > 0,
        ;
        assert(n < k <==> n * size < held) by (nonlinear_arith)
            requires
                held == k * size,
                size > 0,
        ;
        if n >= k {
            let rest = runs.drop_first();
            assert forall|i: int| 0 <= i < rest.len() implies ((#[trigger] rest[i]).clusters
                * g.bytes_per_cluster) % g.record_size as int == 0 by {
                assert(rest[i] == runs[i + 1]);
            }
            law_record_place(g, rest, n - k);
            assert((n - k) * size == n * size - held) by (nonlinear_arith)
                requires
                    held == k * size,
            ;
        }
    }
}

/// The plan reads every record that has a place.
pub proof fn law_plan_complete(g: Geometry, runs: Seq<Run>, first: int, count: int, n: int)
    requires
        g.record_size > 0,
        first <= n < count,
        mft::record_place(g, runs, n - first) is Some,
    ensures
        mft::record_places(g, runs, first, count).contains(
            (n, mft::record_place(g, runs, n - first)->0),
        ),
    decreases runs.len(),
{
    let n0 = mft::run_records(g, runs[0]);
    let here = if n0 < count - first {
        n0
    } else {
        count - first
    };
    let head = match runs[0].start_lcn {
        Some(lcn) => mft::places(g, first, lcn * g.bytes_per_cluster, here),
        None => Seq::empty(),
    };
    let all = mft::record_places(g, runs, first, count);
    let off = mft::record_place(g, runs, n - first)->0;
    let tail = mft::record_places(g, runs.drop_first(), first + n0, count);
    assert(all == head + tail);
    if n - first < n0 {
        assert(head[n - first] == (n, off));
        assert(all[n - first] == (n, off));
    } else {
        law_plan_complete(g, runs.drop_first(), first + n0, count, n);
        let i = choose|i: int| 0 <= i < tail.len() && tail[i] == (n, off);
        assert(all[head.len() + i] == tail[i]);
    }
}

/// The table has as many records as fit into the size that its own record says.
#[verifier::rlimit(40)]
pub proof fn law_layout(g: Geometry, rec: Vec<u8>, volume: &str, r: IndexResult<Layout>)
    requires
        g.record_size > 0,
        call_ensures(mft::parse_layout, (g, rec, volume), r),
    ensures
        r matches Ok(l) ==> {
            let whole = mft::fixed(rec@, g.bytes_per_sector as int);
            exists|o: int| #[trigger]
                holds_table(whole, o) && l.geometry == g && l.runs@ == mft::runs_from(
                    whole.subrange(
                        o + list_start(whole, o),
                        o + byte_laws::four(whole, o + 4),
                    ),
                    0,
                ) && l.record_count == data_size(whole, o) / g.record_size as int
        },
{
    if r is Ok {
        let whole = mft::fixed(rec@, g.bytes_per_sector as int);
        let offs = mft::attributes_from(
            whole,
            mft::u16_at(whole, 0x14),
            mft::used_bytes(whole),
        );
        byte_laws::law_low_byte_first(whole, 0x14);
        lemma_attributes(whole, mft::u16_at(whole, 0x14), mft::used_bytes(whole));
        lemma_data_runs(whole, offs);
    }
}

/// How far behind `o` the attribute there has the list of its runs; 0 where the record ends
/// before it says.
pub open spec fn list_start(b: Seq<u8>, o: int) -> int {
    if o + 34 <= b.len() {
        byte_laws::two(b, o + 32)
    } else {
        0
    }
}

/// How large the data of the attribute at `o` are; 0 where the record ends before it says.
pub open spec fn data_size(b: Seq<u8>, o: int) -> int {
    if o + 56 <= b.len() {
        byte_laws::eight(b, o + 48)
    } else {
        0
    }
}

/// Whether an attribute at `o` is unnamed data that stands outside the record and has the
/// list of its runs in it.
pub open spec fn holds_table(b: Seq<u8>, o: int) -> bool {
    &&& 0 <= o && o + 10 <= b.len()
    &&& byte_laws::four(b, o) == 0x80
    &&& b[o + 8] == 1
    &&& b[o + 9] == 0
    &&& list_start(b, o) < byte_laws::four(b, o + 4)
    &&& o + byte_laws::four(b, o + 4) <= b.len()
}

proof fn lemma_attributes(rec: Seq<u8>, off: int, used: int)
    requires
        0 <= off,
        used <= rec.len(),
    ensures
        forall|i: int|
            0 <= i < mft::attributes_from(rec, off, used).len() ==> {
                let o = #[trigger] mft::attributes_from(rec, off, used)[i];
                0 <= o && o + 10 <= rec.len() && o + mft::u32_at(rec, o + 4) <= rec.len()
            },
    decreases
        (if off < used {
            used - off
        } else {
            0
        }),
{
    let all = mft::attributes_from(rec, off, used);
    if all.len() > 0 {
        let len = mft::u32_at(rec, off + 4);
        lemma_attributes(rec, off + len, used);
        let rest = mft::attributes_from(rec, off + len, used);
        assert forall|i: int| 0 <= i < all.len() implies {
            let o = #[trigger] all[i];
            0 <= o && o + 10 <= rec.len() && o + mft::u32_at(rec, o + 4) <= rec.len()
        } by {
            if i > 0 {
                assert(all[i] == rest[i - 1]);
            }
        }
    }
}

#[verifier::rlimit(40)]
proof fn lemma_data_runs(rec: Seq<u8>, offs: Seq<int>)
    requires
        mft::data_runs(rec, offs) is Some,
        forall|i: int|
            0 <= i < offs.len() ==> 0 <= #[trigger] offs[i] && offs[i] + 10 <= rec.len() && offs[i]
                + mft::u32_at(rec, offs[i] + 4) <= rec.len(),
    ensures
        exists|o: int| #[trigger]
            holds_table(rec, o) && mft::data_runs(rec, offs) == Some(
                (
                    mft::runs_from(
                        rec.subrange(
                            o + list_start(rec, o),
                            o + byte_laws::four(rec, o + 4),
                        ),
                        0,
                    ),
                    data_size(rec, o) as u64,
                ),
            ),
    decreases offs.len(),
{
    let o = offs[0];
    let start = o + mft::u16_at(rec, o + 0x20);
    let end = o + mft::u32_at(rec, o + 4);
    let runs = mft::runs_from(rec.subrange(start, end), 0);
    byte_laws::law_low_byte_first(rec, o);
    byte_laws::law_low_byte_first(rec, o + 4);
    byte_laws::law_low_byte_first(rec, o + 32);
    byte_laws::law_low_byte_first(rec, o + 48);
    if mft::u32_at(rec, o) == 0x80 && rec[o + 9] == 0 && rec[o + 8] == 1 && start < end
        && runs.len() > 0 {
        assert(holds_table(rec, o));
    } else {
        let rest = offs.drop_first();
        assert forall|i: int| 0 <= i < rest.len() implies 0 <= #[trigger] rest[i] && rest[i] + 10
            <= rec.len() && rest[i] + mft::u32_at(rec, rest[i] + 4) <= rec.len() by {
            assert(rest[i] == offs[i + 1]);
        }
        lemma_data_runs(rec, rest);
    }
}

/// The rows of a chunk are those of its records, each numbered by its place.
pub proof fn law_chunk_rows(buf: Seq<u8>, g: Geometry, first: int, n: int, row: RawView)
    ensures
        mft::chunk_rows(buf, g, first, n).contains(row) <==> exists|k: int|
            0 <= k < n && (#[trigger] mft::record_rows(
                buf.subrange(k * g.record_size, (k + 1) * g.record_size),
                (first + k) as u64,
                g.bytes_per_sector as int,
            )).contains(row),
    decreases n,
{
    if n > 0 {
        law_chunk_rows(buf, g, first, n - 1, row);
        let front = mft::chunk_rows(buf, g, first, n - 1);
        let last = mft::record_rows(
            buf.subrange((n - 1) * g.record_size, n * g.record_size),
            (first + n - 1) as u64,
            g.bytes_per_sector as int,
        );
        let all = mft::chunk_rows(buf, g, first, n);
        assert(all == front + last);
        if all.contains(row) {
            let i = choose|i: int| 0 <= i < all.len() && all[i] == row;
            if i < front.len() {
                assert(front[i] == row);
                assert(front.contains(row));
            } else {
                assert(last[i - front.len()] == row);
                assert(mft::record_rows(
                    buf.subrange((n - 1) * g.record_size, (n - 1 + 1) * g.record_size),
                    (first + (n - 1)) as u64,
                    g.bytes_per_sector as int,
                ).contains(row));
            }
        }
        if front.contains(row) {
            let i = choose|i: int| 0 <= i < front.len() && front[i] == row;
            assert(all[i] == row);
        }
        if last.contains(row) {
            let i = choose|i: int| 0 <= i < last.len() && last[i] == row;
            assert(all[front.len() + i] == row);
        }
    }
}

/// The records of the chunks of a plan stand one behind the other in each chunk.
pub proof fn law_chunk_places(g: Geometry, chunks: Seq<Chunk>, c: int, k: int)
    requires
        0 <= c < chunks.len(),
        0 <= k < chunks[c].records,
    ensures
        mft::chunk_places(g, chunks).contains(
            (chunks[c].first + k, chunks[c].offset + k * g.record_size),
        ),
    decreases chunks.len(),
{
    let all = mft::chunk_places(g, chunks);
    let front = mft::chunk_places(g, chunks.drop_last());
    let last = chunks.last();
    let tail = mft::places(g, last.first as int, last.offset as int, last.records as int);
    assert(all == front + tail);
    let x = (chunks[c].first + k, chunks[c].offset + k * g.record_size);
    if c < chunks.len() - 1 {
        law_chunk_places(g, chunks.drop_last(), c, k);
        let i = choose|i: int| 0 <= i < front.len() && front[i] == x;
        assert(all[i] == x);
    } else {
        assert(tail[k] == x);
        assert(all[front.len() + k] == x);
    }
}

} // verus!
