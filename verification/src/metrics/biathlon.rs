//! The biathlon discipline record.

use vstd::prelude::*;

verus! {

/// Shooting accuracy, held as the raw bits of the 32-bit number measured at
/// the boundary; the registry stores and compares it but never interprets it.
#[derive(Debug, Clone, Copy, PartialEq, Eq, Structural)]
pub struct Accuracy(pub u32);

/// Distance in km, held as raw bits.
#[derive(Debug, Clone, Copy, PartialEq, Eq, Structural)]
pub struct Distance(pub u32);

/// Speed in km per hour, held as raw bits.
#[derive(Debug, Clone, Copy, PartialEq, Eq, Structural)]
pub struct Speed(pub u32);

/// One biathlon performance record.
#[derive(Debug, Clone, Copy, PartialEq, Eq, Structural)]
pub struct Biathlon {
    pub accuracy: Accuracy,
    pub distance: Distance,
    pub speed: Speed,
}

impl Biathlon {
    pub fn new(accuracy: Accuracy, distance: Distance, speed: Speed) -> (r: Self)
        ensures
            r == (Biathlon { accuracy, distance, speed }),
    {
        Self { accuracy, distance, speed }
    }
}

} // verus!
