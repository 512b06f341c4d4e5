//! Scalar types shared by the whole crate.
//!
//! They are named here so that their representation can change in one place.

use vstd::prelude::*;

verus! {

/// A real coordinate.
///
/// The topology stores coordinates and never computes with them, so a real
/// is carried by the bit pattern of its IEEE-754 binary64 value: `bits` is
/// what `f64::to_bits` gives for the number.
#[derive(Clone, Copy, PartialEq, Eq, Structural, Debug)]
pub struct Real {
    pub bits: u64,
}

impl Real {
    /// The real whose binary64 bit pattern is `bits`.
    pub fn from_bits(bits: u64) -> (r: Real)
        ensures
            r.bits == bits,
    {
        Real { bits }
    }

    /// The binary64 bit pattern of this real.
    pub fn to_bits(&self) -> (r: u64)
        ensures
            r == self.bits,
    {
        self.bits
    }
}

/// An unsigned integer, used for counts.
pub type UInteger = u64;

} // verus!
