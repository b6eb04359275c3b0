//! Little-endian integers in byte buffers.

use vstd::prelude::*;

verus! {

broadcast use vstd::slice::group_slice_axioms;

/// The `u16` stored little-endian at `off`.
pub open spec fn le_u16(b: Seq<u8>, off: int) -> u16 {
    (b[off] as u16) | ((b[off + 1] as u16) << 8u16)
}

/// The `u32` stored little-endian at `off`.
pub open spec fn le_u32(b: Seq<u8>, off: int) -> u32 {
    (b[off] as u32) | ((b[off + 1] as u32) << 8u32) | ((b[off + 2] as u32) << 16u32) | ((b[off
        + 3] as u32) << 24u32)
}

/// The `u64` stored little-endian at `off`.
pub open spec fn le_u64(b: Seq<u8>, off: int) -> u64 {
    (b[off] as u64) | ((b[off + 1] as u64) << 8u64) | ((b[off + 2] as u64) << 16u64) | ((b[off
        + 3] as u64) << 24u64) | ((b[off + 4] as u64) << 32u64) | ((b[off + 5] as u64) << 40u64)
        | ((b[off + 6] as u64) << 48u64) | ((b[off + 7] as u64) << 56u64)
}

/// `mem` with the eight bytes of `v`, least significant first, stored at `off`.
pub open spec fn put_u64(mem: Seq<u8>, off: int, v: u64) -> Seq<u8> {
    mem.update(off, v as u8).update(off + 1, (v >> 8u64) as u8).update(off + 2, (v >> 16u64) as u8).update(
        off + 3,
        (v >> 24u64) as u8,
    ).update(off + 4, (v >> 32u64) as u8).update(off + 5, (v >> 40u64) as u8).update(
        off + 6,
        (v >> 48u64) as u8,
    ).update(off + 7, (v >> 56u64) as u8)
}

pub fn read_u16(b: &[u8], off: usize) -> (r: u16)
    requires
        off + 2 <= b@.len(),
    ensures
        r == le_u16(b@, off as int),
{
    (b[off] as u16) | ((b[off + 1] as u16) << 8u16)
}

pub fn read_u32(b: &[u8], off: usize) -> (r: u32)
    requires
        off + 4 <= b@.len(),
    ensures
        r == le_u32(b@, off as int),
{
    (b[off] as u32) | ((b[off + 1] as u32) << 8u32) | ((b[off + 2] as u32) << 16u32) | ((b[off
        + 3] as u32) << 24u32)
}

pub fn read_u64(b: &[u8], off: usize) -> (r: u64)
    requires
        off + 8 <= b@.len(),
    ensures
        r == le_u64(b@, off as int),
{
    (b[off] as u64) | ((b[off + 1] as u64) << 8u64) | ((b[off + 2] as u64) << 16u64) | ((b[off
        + 3] as u64) << 24u64) | ((b[off + 4] as u64) << 32u64) | ((b[off + 5] as u64) << 40u64)
        | ((b[off + 6] as u64) << 48u64) | ((b[off + 7] as u64) << 56u64)
}

/// Stores `v` little-endian at `off`.
pub fn write_u64(mem: &mut [u8], off: usize, v: u64)
    requires
        off + 8 <= old(mem)@.len(),
    ensures
        final(mem)@ == put_u64(old(mem)@, off as int, v),
{
    mem[off] = #[verifier::truncate] (v as u8);
    mem[off + 1] = #[verifier::truncate] ((v >> 8u64) as u8);
    mem[off + 2] = #[verifier::truncate] ((v >> 16u64) as u8);
    mem[off + 3] = #[verifier::truncate] ((v >> 24u64) as u8);
    mem[off + 4] = #[verifier::truncate] ((v >> 32u64) as u8);
    mem[off + 5] = #[verifier::truncate] ((v >> 40u64) as u8);
    mem[off + 6] = #[verifier::truncate] ((v >> 48u64) as u8);
    mem[off + 7] = #[verifier::truncate] ((v >> 56u64) as u8);
}

} // verus!
