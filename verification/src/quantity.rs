//! Quantities, carried as the bit pattern of a single-precision number.

use vstd::prelude::*;

verus! {

/// The bit pattern of positive zero.
pub const POSITIVE_ZERO: u32 = 0;

/// The bit pattern of negative zero.
pub const NEGATIVE_ZERO: u32 = 0x8000_0000;

/// The quantity resting at a price. The book never computes with it; it only
/// asks whether it is zero, which both signed zeros are.
#[derive(Clone, Copy, PartialEq, Eq, Structural, Debug)]
pub struct Quantity {
    pub bits: u32,
}

impl Quantity {
    /// Whether this quantity is a zero of either sign.
    pub open spec fn denotes_zero(self) -> bool {
        self.bits == POSITIVE_ZERO || self.bits == NEGATIVE_ZERO
    }

    /// The quantity with the given bit pattern.
    pub fn from_bits(bits: u32) -> (q: Quantity)
        ensures
            q.bits == bits,
    {
        Quantity { bits }
    }

    /// The bit pattern of this quantity.
    pub fn to_bits(self) -> (bits: u32)
        ensures
            bits == self.bits,
    {
        self.bits
    }

    /// The quantity that an empty slot holds: positive zero.
    pub fn zero() -> (q: Quantity)
        ensures
            q.bits == POSITIVE_ZERO,
            q.denotes_zero(),
    {
        Quantity { bits: POSITIVE_ZERO }
    }

    /// Tests whether this quantity is a zero of either sign.
    pub fn is_zero(self) -> (z: bool)
        ensures
            z == self.denotes_zero(),
    {
        self.bits == POSITIVE_ZERO || self.bits == NEGATIVE_ZERO
    }
}

} // verus!
