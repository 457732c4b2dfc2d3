use vstd::prelude::*;

verus! {

/// Shift right by `shift` bits then bitwise AND with `mask`.
/// Equivalent to `(val >> shift) & mask`.
pub fn shift_then_mask(val: u32, shift: u32, mask: u32) -> (r: u32)
    requires
        shift < 32,
    ensures
        r == (val >> shift) & mask,
{
    (val >> shift) & mask
}

/// Helper trait enabling `val.shift_then_mask(shift, mask)` method syntax on integer types.
pub trait ShiftThenMask: Sized {
    /// Whether `shift` is a valid shift distance for this integer width.
    spec fn shift_in_range(shift: u32) -> bool;

    /// The value of `(self >> shift) & mask`.
    spec fn spec_shift_then_mask(self, shift: u32, mask: Self) -> Self;

    fn shift_then_mask(self, shift: u32, mask: Self) -> (r: Self)
        requires
            Self::shift_in_range(shift),
        ensures
            r == self.spec_shift_then_mask(shift, mask),
    ;
}

impl ShiftThenMask for u32 {
    open spec fn shift_in_range(shift: u32) -> bool {
        shift < 32
    }

    open spec fn spec_shift_then_mask(self, shift: u32, mask: u32) -> u32 {
        (self >> shift) & mask
    }

    fn shift_then_mask(self, shift: u32, mask: u32) -> (r: u32) {
        (self >> shift) & mask
    }
}

impl ShiftThenMask for u16 {
    open spec fn shift_in_range(shift: u32) -> bool {
        shift < 16
    }

    open spec fn spec_shift_then_mask(self, shift: u32, mask: u16) -> u16 {
        (self >> shift) & mask
    }

    fn shift_then_mask(self, shift: u32, mask: u16) -> (r: u16) {
        (self >> shift) & mask
    }
}

} // verus!
