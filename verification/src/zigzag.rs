//! Zig-zag codec: a bijection between signed deltas and unsigned integers
//! that keeps small magnitudes numerically small, as in protobuf's signed
//! varint convention: `0 -> 0, -1 -> 1, 1 -> 2, -2 -> 3, 2 -> 4, ...`.

use vstd::prelude::*;

verus! {

/// What zig-zag encoding means, arithmetically: a non-negative delta `v`
/// maps to `2 * v`, a negative one to `-2 * v - 1`.
pub open spec fn spec_zigzag(v: int) -> int {
    if v >= 0 {
        2 * v
    } else {
        -2 * v - 1
    }
}

/// The inverse mapping: even words are non-negative deltas, odd words are
/// negative ones.
pub open spec fn spec_unzigzag(u: int) -> int {
    if u % 2 == 0 {
        u / 2
    } else {
        -((u + 1) / 2)
    }
}

/// Zig-zag-encodes a signed 32-bit delta.
///
/// Deltas of 16-bit tile coordinates always fit in 32 bits, and widening to
/// 32 bits before the shift keeps the bit packing itself overflow-free.
pub fn zigzag(v: i32) -> (r: u32)
    ensures
        r == spec_zigzag(v as int),
{
    proof {
        assert(v >= 0 ==> ((v << 1) ^ (v >> 31)) as u32 == 2 * (v as int)) by (bit_vector);
        assert(v < 0 ==> ((v << 1) ^ (v >> 31)) as u32 == -2 * (v as int) - 1) by (bit_vector);
    }
    ((v << 1) ^ (v >> 31)) as u32
}

/// Inverts [`zigzag`]; the encoder itself never needs it, but decoders and
/// round-trip checks do.
pub fn zigzag_decode(u: u32) -> (r: i32)
    ensures
        r == spec_unzigzag(u as int),
{
    proof {
        assert((u >> 1) < 0x8000_0000u32 && (u & 1) < 2u32) by (bit_vector);
        assert(u % 2 == 0 ==> (((u >> 1) as i32) ^ ((-((u & 1) as i32)) as i32)) == (u as int) / 2)
            by (bit_vector);
        assert(u % 2 != 0 ==> (((u >> 1) as i32) ^ ((-((u & 1) as i32)) as i32)) == -(((u as int) + 1) / 2))
            by (bit_vector);
    }
    ((u >> 1) as i32) ^ (-((u & 1) as i32))
}

/// Law: zig-zag decoding inverts zig-zag encoding on every signed delta.
pub proof fn lemma_zigzag_roundtrip(v: int)
    ensures
        spec_unzigzag(spec_zigzag(v)) == v,
{
}

} // verus!
