use vstd::prelude::*;

verus! {

/// The bit of an IEEE-754 single that holds its sign.
pub const SIGN_BIT: u32 = 0x8000_0000;

/// The signed magnitude that a single's bit pattern stands for: its magnitude
/// bits, negated when the sign bit is set.
pub open spec fn signed_magnitude(bits: u32) -> int {
    if bits < SIGN_BIT {
        bits as int
    } else {
        -((bits - SIGN_BIT) as int)
    }
}

/// Maps the bit pattern of an `f32` to an integer key that orders as the
/// number does. Among singles of one sign, a larger magnitude has larger
/// magnitude bits, so the signed magnitude orders every value that is not a NaN
/// exactly as `<` on the floats does, and both zeros get key `0`.
pub fn order_key(bits: u32) -> (r: i32)
    ensures
        r as int == signed_magnitude(bits),
{
    if bits < SIGN_BIT {
        bits as i32
    } else {
        -((bits - SIGN_BIT) as i32)
    }
}

} // verus!
