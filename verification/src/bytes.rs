//! Little-endian numbers in byte buffers.

use vstd::prelude::*;

verus! {

/// The little-endian value of the bytes.
pub open spec fn le(b: Seq<u8>) -> nat
    decreases b.len(),
{
    if b.len() == 0 {
        0
    } else {
        b[0] as nat + 256 * le(b.drop_first())
    }
}

/// The little-endian value of the `n` bytes at `off`, 0 when the buffer ends
/// before them.
pub open spec fn le_at(b: Seq<u8>, off: int, n: int) -> nat {
    if 0 <= off && off + n <= b.len() {
        le(b.subrange(off, off + n))
    } else {
        0
    }
}

/// `256^n`.
pub open spec fn pow256(n: nat) -> nat
    decreases n,
{
    if n == 0 {
        1
    } else {
        256 * pow256((n - 1) as nat)
    }
}

/// `n` bytes stay below `256^n`.
pub proof fn lemma_le_bound(b: Seq<u8>)
    ensures
        le(b) < pow256(b.len()),
    decreases b.len(),
{
    if b.len() > 0 {
        lemma_le_bound(b.drop_first());
    }
}

/// The powers of 256 that fit the integer types.
pub proof fn lemma_pow256()
    ensures
        pow256(1) == 0x100,
        pow256(2) == 0x1_0000,
        pow256(3) == 0x100_0000,
        pow256(4) == 0x1_0000_0000,
        pow256(5) == 0x100_0000_0000,
        pow256(6) == 0x1_0000_0000_0000,
        pow256(7) == 0x100_0000_0000_0000,
        pow256(8) == 0x1_0000_0000_0000_0000,
{
    reveal_with_fuel(pow256, 9);
}

/// A shorter number stays below the limit of a longer one.
pub proof fn lemma_pow256_monotonic(a: nat, b: nat)
    requires
        a <= b,
    ensures
        pow256(a) <= pow256(b),
    decreases b,
{
    if a < b {
        lemma_pow256_monotonic(a, (b - 1) as nat);
    }
}

/// The little-endian value of the `n` bytes at `off`, 0 when the buffer ends
/// before them.
pub fn read_le(b: &[u8], off: usize, n: usize) -> (r: u64)
    requires
        n <= 8,
    ensures
        r == le_at(b@, off as int, n as int),
        r < pow256(n as nat),
{
    proof {
        lemma_pow256_monotonic(0, n as nat);
    }
    if off > b.len() || b.len() - off < n {
        return 0;
    }
    let ghost s = b@.subrange(off as int, off + n);
    let end: usize = off + n;
    let mut value: u64 = 0;
    let mut k: usize = n;
    assert(s.skip(n as int) =~= Seq::empty());
    while k > 0
        invariant
            k <= n <= 8,
            end == off + n,
            end <= b@.len(),
            s == b@.subrange(off as int, off + n),
            value == le(s.skip(k as int)),
        decreases k,
    {
        k -= 1;
        proof {
            let tail = s.skip(k + 1);
            assert(s.skip(k as int).drop_first() =~= tail);
            lemma_le_bound(tail);
            lemma_pow256_monotonic(tail.len(), 7);
            lemma_pow256();
        }
        value = value * 256 + b[end - (n - k)] as u64;
    }
    assert(s.skip(0) =~= s);
    proof {
        lemma_le_bound(s);
    }
    value
}

/// The 16-bit value at `off`, 0 when the buffer ends before it.
pub fn read_u16(b: &[u8], off: usize) -> (r: u16)
    ensures
        r == le_at(b@, off as int, 2),
{
    proof {
        lemma_pow256();
    }
    read_le(b, off, 2) as u16
}

/// The 32-bit value at `off`, 0 when the buffer ends before it.
pub fn read_u32(b: &[u8], off: usize) -> (r: u32)
    ensures
        r == le_at(b@, off as int, 4),
{
    proof {
        lemma_pow256();
    }
    read_le(b, off, 4) as u32
}

/// The 64-bit value at `off`, 0 when the buffer ends before it.
pub fn read_u64(b: &[u8], off: usize) -> (r: u64)
    ensures
        r == le_at(b@, off as int, 8),
{
    read_le(b, off, 8)
}

/// The signed value that `n` low bits stand for in two's complement.
pub open spec fn signed(value: int, limit: int) -> int {
    if 2 * value >= limit {
        value - limit
    } else {
        value
    }
}

/// The signed 64-bit value at `off`, 0 when the buffer ends before it.
pub fn read_i64(b: &[u8], off: usize) -> (r: i64)
    ensures
        r == signed(le_at(b@, off as int, 8) as int, 0x1_0000_0000_0000_0000),
{
    let v: u64 = read_u64(b, off);
    if v >= 0x8000_0000_0000_0000 {
        (v as i128 - 0x1_0000_0000_0000_0000) as i64
    } else {
        v as i64
    }
}

/// A copy of `b[from..to]`.
pub(crate) fn copy_part(b: &[u8], from: usize, to: usize) -> (r: Vec<u8>)
    requires
        from <= to <= b@.len(),
    ensures
        r@ == b@.subrange(from as int, to as int),
{
    let mut out: Vec<u8> = Vec::new();
    let mut i: usize = from;
    while i < to
        invariant
            from <= i <= to <= b@.len(),
            out@ == b@.subrange(from as int, i as int),
        decreases to - i,
    {
        out.push(b[i]);
        assert(b@.subrange(from as int, i + 1) =~= b@.subrange(from as int, i as int).push(
            b@[i as int],
        ));
        i += 1;
    }
    out
}

} // verus!
