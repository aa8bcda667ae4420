//! Little-endian integer fields in byte buffers, as the container formats
//! store them: reads at an offset, and writes that append to a buffer.

use vstd::prelude::*;

verus! {

/// The 16-bit little-endian value at offset `i`.
pub open spec fn le16(s: Seq<u8>, i: int) -> int {
    s[i] + 0x100 * s[i + 1]
}

/// The 32-bit little-endian value at offset `i`.
pub open spec fn le32(s: Seq<u8>, i: int) -> int {
    s[i] + 0x100 * s[i + 1] + 0x10000 * s[i + 2] + 0x1000000 * s[i + 3]
}

/// The 64-bit little-endian value at offset `i`.
pub open spec fn le64(s: Seq<u8>, i: int) -> int {
    s[i] + 0x100 * s[i + 1] + 0x10000 * s[i + 2] + 0x1000000 * s[i + 3] + 0x100000000 * s[i + 4]
        + 0x10000000000 * s[i + 5] + 0x1000000000000 * s[i + 6] + 0x100000000000000 * s[i + 7]
}

/// Reads the 16-bit field at `off`.
pub fn read_u16_at(data: &[u8], off: usize) -> (r: u16)
    requires
        off + 2 <= data@.len(),
    ensures
        r == le16(data@, off as int),
{
    data[off] as u16 + 0x100 * (data[off + 1] as u16)
}

/// Reads the 32-bit field at `off`.
pub fn read_u32_at(data: &[u8], off: usize) -> (r: u32)
    requires
        off + 4 <= data@.len(),
    ensures
        r == le32(data@, off as int),
{
    data[off] as u32 + 0x100 * (data[off + 1] as u32) + 0x10000 * (data[off + 2] as u32)
        + 0x1000000 * (data[off + 3] as u32)
}

/// Reads the 64-bit field at `off`.
pub fn read_u64_at(data: &[u8], off: usize) -> (r: u64)
    requires
        off + 8 <= data@.len(),
    ensures
        r == le64(data@, off as int),
{
    data[off] as u64 + 0x100 * (data[off + 1] as u64) + 0x10000 * (data[off + 2] as u64)
        + 0x1000000 * (data[off + 3] as u64) + 0x100000000 * (data[off + 4] as u64)
        + 0x10000000000 * (data[off + 5] as u64) + 0x1000000000000 * (data[off + 6] as u64)
        + 0x100000000000000 * (data[off + 7] as u64)
}

/// Appends one byte.
pub fn push_u8(out: &mut Vec<u8>, x: u8)
    ensures
        final(out)@.len() == old(out)@.len() + 1,
        final(out)@.subrange(0, old(out)@.len() as int) == old(out)@,
        final(out)@[old(out)@.len() as int] == x,
{
    out.push(x);
    proof {
        assert(final(out)@.subrange(0, old(out)@.len() as int) =~= old(out)@);
    }
}

/// Appends the 16-bit field for `x`.
pub fn push_u16(out: &mut Vec<u8>, x: u16)
    ensures
        final(out)@.len() == old(out)@.len() + 2,
        final(out)@.subrange(0, old(out)@.len() as int) == old(out)@,
        le16(final(out)@, old(out)@.len() as int) == x,
{
    out.push((x % 0x100) as u8);
    out.push((x / 0x100) as u8);
    proof {
        assert(final(out)@.subrange(0, old(out)@.len() as int) =~= old(out)@);
        assert(x % 0x100 + 0x100 * (x / 0x100) == x) by (nonlinear_arith);
    }
}

/// Appends the 32-bit field for `x`.
pub fn push_u32(out: &mut Vec<u8>, x: u32)
    ensures
        final(out)@.len() == old(out)@.len() + 4,
        final(out)@.subrange(0, old(out)@.len() as int) == old(out)@,
        le32(final(out)@, old(out)@.len() as int) == x,
{
    out.push((x % 0x100) as u8);
    out.push((x / 0x100 % 0x100) as u8);
    out.push((x / 0x10000 % 0x100) as u8);
    out.push((x / 0x1000000) as u8);
    proof {
        assert(final(out)@.subrange(0, old(out)@.len() as int) =~= old(out)@);
        assert(x % 0x100 + 0x100 * (x / 0x100 % 0x100) + 0x10000 * (x / 0x10000 % 0x100)
            + 0x1000000 * (x / 0x1000000) == x) by (nonlinear_arith);
    }
}

/// Appends the 64-bit field for `x`.
pub fn push_u64(out: &mut Vec<u8>, x: u64)
    ensures
        final(out)@.len() == old(out)@.len() + 8,
        final(out)@.subrange(0, old(out)@.len() as int) == old(out)@,
        le64(final(out)@, old(out)@.len() as int) == x,
{
    out.push((x % 0x100) as u8);
    out.push((x / 0x100 % 0x100) as u8);
    out.push((x / 0x10000 % 0x100) as u8);
    out.push((x / 0x1000000 % 0x100) as u8);
    out.push((x / 0x100000000 % 0x100) as u8);
    out.push((x / 0x10000000000 % 0x100) as u8);
    out.push((x / 0x1000000000000 % 0x100) as u8);
    out.push((x / 0x100000000000000) as u8);
    proof {
        assert(final(out)@.subrange(0, old(out)@.len() as int) =~= old(out)@);
        assert(x % 0x100 + 0x100 * (x / 0x100 % 0x100) + 0x10000 * (x / 0x10000 % 0x100)
            + 0x1000000 * (x / 0x1000000 % 0x100) + 0x100000000 * (x / 0x100000000 % 0x100)
            + 0x10000000000 * (x / 0x10000000000 % 0x100) + 0x1000000000000 * (x
            / 0x1000000000000 % 0x100) + 0x100000000000000 * (x / 0x100000000000000) == x)
            by (bit_vector);
    }
}

} // verus!
