//! Decoding fixed-width integers from little-endian bytes.

use vstd::prelude::*;

verus! {

/// The value of four little-endian bytes.
pub open spec fn le_u32_spec(b: Seq<u8>) -> int
    recommends
        b.len() == 4,
{
    b[0] + b[1] * 0x100 + b[2] * 0x10000 + b[3] * 0x1000000
}

/// Read a `u32` from four bytes, least significant first.
pub fn u32_from_le_bytes(b: &[u8]) -> (n: u32)
    requires
        b@.len() == 4,
    ensures
        n == le_u32_spec(b@),
{
    let b0 = b[0] as u32;
    let b1 = b[1] as u32;
    let b2 = b[2] as u32;
    let b3 = b[3] as u32;
    b0 + b1 * 0x100 + b2 * 0x10000 + b3 * 0x1000000
}

} // verus!
