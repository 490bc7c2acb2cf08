use vstd::prelude::*;

verus! {

/// An integer intensity clamped to the 8-bit range `[0, 255]`.
pub open spec fn clamped_byte(v: int) -> u8 {
    if v < 0 {
        0u8
    } else if v > 255 {
        255u8
    } else {
        v as u8
    }
}

/// Quantisation step of the mask generator: a rounded intensity value is
/// clamped to the 8-bit range, as a saturating cast to `u8` would do.
pub fn clamp_byte(v: i64) -> (r: u8)
    ensures
        r == clamped_byte(v as int),
{
    if v < 0 {
        0
    } else if v > 255 {
        255
    } else {
        v as u8
    }
}

} // verus!
