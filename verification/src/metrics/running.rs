//! The running discipline record.

use vstd::prelude::*;

verus! {

/// Distance in km, held as the raw bits of the 32-bit number measured at the
/// boundary; the registry stores and compares it but never interprets it.
#[derive(Debug, Clone, Copy, PartialEq, Eq, Structural)]
pub struct Distance(pub u32);

/// Speed in km per hour, held as raw bits.
#[derive(Debug, Clone, Copy, PartialEq, Eq, Structural)]
pub struct Speed(pub u32);

/// One running performance record.
#[derive(Debug, Clone, Copy, PartialEq, Eq, Structural)]
pub struct Running {
    pub distance: Distance,
    pub speed: Speed,
}

impl Running {
    pub fn new(distance: Distance, speed: Speed) -> (r: Self)
        ensures
            r == (Running { distance, speed }),
    {
        Self { distance, speed }
    }
}

} // verus!
