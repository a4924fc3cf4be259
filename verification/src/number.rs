use vstd::prelude::*;

verus! {

/// Whether the 64 bits of an IEEE-754 double stand for a finite number: the
/// eleven exponent bits are not all set. NaN and both infinities have them
/// all set.
pub open spec fn is_finite_double(bits: u64) -> bool {
    (bits >> 52) & 0x7ff != 0x7ff
}

/// Whether the 32 bits of an IEEE-754 single stand for a finite number: the
/// eight exponent bits are not all set.
pub open spec fn is_finite_single(bits: u32) -> bool {
    (bits >> 23) & 0xff != 0xff
}

/// Tells a finite double from NaN and the infinities, by its bits.
pub fn double_is_finite(bits: u64) -> (finite: bool)
    ensures
        finite == is_finite_double(bits),
{
    (bits >> 52) & 0x7ff != 0x7ff
}

/// Tells a finite single from NaN and the infinities, by its bits.
pub fn single_is_finite(bits: u32) -> (finite: bool)
    ensures
        finite == is_finite_single(bits),
{
    (bits >> 23) & 0xff != 0xff
}

} // verus!
