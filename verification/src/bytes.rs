//! Little-endian field extraction from byte slices.
//!
//! On-disk structures (boot sector, directory entries, chunk headers) are
//! fixed-offset little-endian records; these helpers read one field each and
//! are specified with vstd's little-endian byte conversions.

use vstd::bytes::spec_u16_from_le_bytes;
use vstd::bytes::spec_u32_from_le_bytes;
use vstd::bytes::spec_u64_from_le_bytes;
use vstd::bytes::u16_from_le_bytes;
use vstd::bytes::u32_from_le_bytes;
use vstd::bytes::u64_from_le_bytes;
use vstd::prelude::*;
use vstd::slice::slice_subrange;

verus! {

/// Reads the little-endian `u16` at byte offset `off` of `s`.
pub fn le_u16_at(s: &[u8], off: usize) -> (r: u16)
    requires
        off + 2 <= s@.len(),
    ensures
        r == spec_u16_from_le_bytes(s@.subrange(off as int, off as int + 2)),
{
    // bind the length so the offset arithmetic is known to stay in bounds
    let n: usize = s.len();
    u16_from_le_bytes(slice_subrange(s, off, off + 2))
}

/// Reads the little-endian `u32` at byte offset `off` of `s`.
pub fn le_u32_at(s: &[u8], off: usize) -> (r: u32)
    requires
        off + 4 <= s@.len(),
    ensures
        r == spec_u32_from_le_bytes(s@.subrange(off as int, off as int + 4)),
{
    // bind the length so the offset arithmetic is known to stay in bounds
    let n: usize = s.len();
    u32_from_le_bytes(slice_subrange(s, off, off + 4))
}

/// Reads the little-endian `u64` at byte offset `off` of `s`.
pub fn le_u64_at(s: &[u8], off: usize) -> (r: u64)
    requires
        off + 8 <= s@.len(),
    ensures
        r == spec_u64_from_le_bytes(s@.subrange(off as int, off as int + 8)),
{
    // bind the length so the offset arithmetic is known to stay in bounds
    let n: usize = s.len();
    u64_from_le_bytes(slice_subrange(s, off, off + 8))
}

} // verus!
