//! The weight-lifting discipline record.

use vstd::prelude::*;

verus! {

/// The sportsman's own weight, held as the raw bits of the 32-bit number
/// measured at the boundary; the registry stores and compares it but never
/// interprets it.
#[derive(Debug, Clone, Copy, PartialEq, Eq, Structural)]
pub struct Weight(pub u32);

/// The summary lifted weight, held as raw bits.
#[derive(Debug, Clone, Copy, PartialEq, Eq, Structural)]
pub struct LiftedWeight(pub u32);

/// One weight-lifting performance record.
#[derive(Debug, Clone, Copy, PartialEq, Eq, Structural)]
pub struct WeightLifting {
    pub weight: Weight,
    pub lifted_weight: LiftedWeight,
}

impl WeightLifting {
    pub fn new(weight: Weight, lifted_weight: LiftedWeight) -> (r: Self)
        ensures
            r == (WeightLifting { weight, lifted_weight }),
    {
        Self { weight, lifted_weight }
    }
}

} // verus!
