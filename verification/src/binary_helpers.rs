//! Small bit-level helpers shared by the filesystem and sample decoders.

use vstd::prelude::*;

verus! {

/// Returns true when bit `bit` (counting from the least significant bit) is
/// set in `num`.
pub fn bit_on(num: u64, bit: u8) -> (r: bool)
    requires
        bit < 64,
    ensures
        r <==> (num >> bit) & 1 == 1,
{
    let mask: u64 = 1u64 << bit;
    proof {
        assert((num & (1u64 << bit) != 0) <==> ((num >> bit) & 1 == 1)) by (bit_vector);
    }
    (num & mask) != 0
}

/// Reinterprets the 32 bits of `num` as a two's-complement signed value.
pub fn convert_to_signed(num: u32) -> (r: i32)
    ensures
        r as int == if num < 0x8000_0000 {
            num as int
        } else {
            num as int - 0x1_0000_0000
        },
{
    if bit_on(num as u64, 31) {
        proof {
            assert((((num as u64) >> 31u64) & 1 == 1) ==> num >= 0x8000_0000) by (bit_vector);
            assert(num >= 0x8000_0000 ==> (num ^ (1u32 << 31)) == num - 0x8000_0000)
                by (bit_vector);
        }
        // Clear the sign bit, then shift the value down into the negative
        // half of the i32 range.
        let num_strip_top = (num ^ (1u32 << 31)) as i32;
        return i32::MIN + num_strip_top;
    }
    proof {
        assert(!(((num as u64) >> 31u64) & 1 == 1) ==> num < 0x8000_0000) by (bit_vector);
    }
    num as i32
}

} // verus!
