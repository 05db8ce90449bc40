//! Numbers as the engine carries them: the 32 bits of a single-precision value.

use vstd::prelude::*;

verus! {

/// The bit pattern of positive infinity; above it, the sign bit aside, lie
/// the patterns that are not numbers.
pub const INFINITY_BITS: u32 = 0x7F80_0000;

/// What the sign bit is worth.
pub const SIGN_BIT: u32 = 0x8000_0000;

/// The bit pattern stands for no number: all bits of its exponent are set
/// and its fraction is not zero.
pub open spec fn is_nan(bits: u32) -> bool {
    bits % SIGN_BIT > INFINITY_BITS
}

/// Tells whether the bit pattern stands for no number.
pub fn is_not_a_number(bits: u32) -> (b: bool)
    ensures
        b == is_nan(bits),
{
    bits % SIGN_BIT > INFINITY_BITS
}

} // verus!
