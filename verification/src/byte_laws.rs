//! Laws of numbers in byte buffers: which byte counts how much.

use crate::bytes;
use vstd::prelude::*;

verus! {

/// The number in the two bytes at `o`, the low one first.
pub open spec fn two(b: Seq<u8>, o: int) -> int {
    b[o] + 0x100 * b[o + 1]
}

/// The number in the four bytes at `o`, the low ones first.
pub open spec fn four(b: Seq<u8>, o: int) -> int {
    two(b, o) + 0x1_0000 * two(b, o + 2)
}

/// The number in the eight bytes at `o`, the low ones first.
pub open spec fn eight(b: Seq<u8>, o: int) -> int {
    four(b, o) + 0x1_0000_0000 * four(b, o + 4)
}

proof fn lemma_head(b: Seq<u8>, o: int, n: int)
    requires
        0 <= o,
        n > 0,
        o + n <= b.len(),
    ensures
        bytes::le_at(b, o, n) == b[o] + 256 * bytes::le_at(b, o + 1, n - 1),
{
    let s = b.subrange(o, o + n);
    assert(s.drop_first() =~= b.subrange(o + 1, o + n));
}

/// A number in a buffer is read with its low byte first, and as 0 where the buffer
/// ends before it.
pub proof fn law_low_byte_first(b: Seq<u8>, o: int)
    requires
        0 <= o,
    ensures
        o + 2 <= b.len() ==> bytes::le_at(b, o, 2) == two(b, o),
        o + 4 <= b.len() ==> bytes::le_at(b, o, 4) == four(b, o),
        o + 8 <= b.len() ==> bytes::le_at(b, o, 8) == eight(b, o),
        o + 2 > b.len() ==> bytes::le_at(b, o, 2) == 0,
        o + 4 > b.len() ==> bytes::le_at(b, o, 4) == 0,
        o + 8 > b.len() ==> bytes::le_at(b, o, 8) == 0,
{
    if o + 2 <= b.len() {
        lemma_head(b, o, 2);
        lemma_head(b, o + 1, 1);
    }
    if o + 4 <= b.len() {
        lemma_head(b, o, 4);
        lemma_head(b, o + 1, 3);
        lemma_head(b, o + 2, 2);
        lemma_head(b, o + 3, 1);
    }
    if o + 8 <= b.len() {
        lemma_head(b, o, 8);
        lemma_head(b, o + 1, 7);
        lemma_head(b, o + 2, 6);
        lemma_head(b, o + 3, 5);
        lemma_head(b, o + 4, 4);
        lemma_head(b, o + 5, 3);
        lemma_head(b, o + 6, 2);
        lemma_head(b, o + 7, 1);
    }
}

/// A signed number is the one of its bits that fits the range: it differs from the
/// unsigned one by nothing or by the whole range.
pub proof fn law_signed(v: int, limit: int)
    requires
        0 <= v < limit,
        limit % 2 == 0,
    ensures
        -limit <= 2 * bytes::signed(v, limit) < limit,
        bytes::signed(v, limit) == v || bytes::signed(v, limit) == v - limit,
{
}

} // verus!
