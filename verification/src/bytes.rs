//! Little-endian integer decoding from a byte buffer.

use vstd::prelude::*;

verus! {

/// The 16-bit little-endian value stored at positions `i` and `i + 1`.
pub open spec fn le16_at(d: Seq<u8>, i: int) -> u16
    recommends
        0 <= i,
        i + 2 <= d.len(),
{
    (d[i] + d[i + 1] * 0x100) as u16
}

/// The 32-bit little-endian value stored at positions `i` through `i + 3`.
pub open spec fn le32_at(d: Seq<u8>, i: int) -> u32
    recommends
        0 <= i,
        i + 4 <= d.len(),
{
    (d[i] + d[i + 1] * 0x100 + d[i + 2] * 0x1_0000 + d[i + 3] * 0x100_0000) as u32
}

/// Decodes the 16-bit little-endian value at `pos`.
pub fn read_le_u16(data: &Vec<u8>, pos: usize) -> (r: u16)
    requires
        pos + 2 <= data@.len(),
    ensures
        r == le16_at(data@, pos as int),
{
    // binds the length so the prover sees that positions near `pos` fit in usize
    let _n: usize = data.len();
    data[pos] as u16 + data[pos + 1] as u16 * 0x100
}

/// Decodes the 32-bit little-endian value at `pos`.
pub fn read_le_u32(data: &Vec<u8>, pos: usize) -> (r: u32)
    requires
        pos + 4 <= data@.len(),
    ensures
        r == le32_at(data@, pos as int),
{
    // binds the length so the prover sees that positions near `pos` fit in usize
    let _n: usize = data.len();
    data[pos] as u32
        + data[pos + 1] as u32 * 0x100
        + data[pos + 2] as u32 * 0x1_0000
        + data[pos + 3] as u32 * 0x100_0000
}

} // verus!
