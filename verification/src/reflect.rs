//! Bit reversal of a byte, shared by the reflected forms of every CRC
//! width: an input byte enters a reflected algorithm lowest bit first.

use vstd::prelude::*;

verus! {

/// Bit reversal of a byte, by the classical swap-and-mask cascade.
pub open spec fn spec_reflect8(b: u8) -> u8 {
    let a = ((b & 0xF0) >> 4) | ((b & 0x0F) << 4);
    let c = ((a & 0xCC) >> 2) | ((a & 0x33) << 2);
    ((c & 0xAA) >> 1) | ((c & 0x55) << 1)
}

#[verifier::when_used_as_spec(spec_reflect8)]
pub(crate) fn reflect8(b: u8) -> (r: u8)
    ensures
        r == spec_reflect8(b),
{
    let a = ((b & 0xF0) >> 4) | ((b & 0x0F) << 4);
    let c = ((a & 0xCC) >> 2) | ((a & 0x33) << 2);
    ((c & 0xAA) >> 1) | ((c & 0x55) << 1)
}

/// Bit reversal of a byte distributes over xor.
pub proof fn lemma_reflect8_xor(x: u8, y: u8)
    ensures
        spec_reflect8(x ^ y) == spec_reflect8(x) ^ spec_reflect8(y),
{
    assert(spec_reflect8(x ^ y) == spec_reflect8(x) ^ spec_reflect8(y)) by (bit_vector);
}

} // verus!
