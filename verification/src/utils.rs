//! Byte utilities: combining octet pairs into 16-bit values and computing
//! name-compression pointer targets.

use vstd::prelude::*;

verus! {

/// Mathematical value of two octets read most-significant first.
pub open spec fn combine16(hi: u8, lo: u8) -> int {
    hi * 256 + lo
}

/// The 14-bit target offset of a compression pointer whose two octets are
/// `b0` and `b1`: the top two bits of `b0` (the `11` tag) are masked off.
pub open spec fn pointer_target(b0: u8, b1: u8) -> int {
    (b0 % 64) * 256 + b1
}

/// Combine two octets into a 16-bit value, most-significant octet first.
pub fn byte_combine(hi: u8, lo: u8) -> (r: u16)
    ensures
        r == combine16(hi, lo),
{
    (hi as u16) * 256 + (lo as u16)
}

/// Compute the target offset of a name-compression pointer from its two
/// octets. The caller must already have checked that the top two bits of
/// `b0` carry the pointer tag `11`; this function merely masks them off.
pub fn bytes_to_name_offset(b0: u8, b1: u8) -> (r: u16)
    ensures
        r == pointer_target(b0, b1),
{
    ((b0 % 64) as u16) * 256 + (b1 as u16)
}

} // verus!
