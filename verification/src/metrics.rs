//! The closed set of discipline kinds and their record shapes.
//!
//! Every place that once inspected a record's run-time type now matches on
//! [`SportKind`] or [`MetricValue`] exhaustively, so an unknown kind cannot
//! arise for any compiled-in discipline.

pub mod biathlon;
pub mod running;
pub mod weight_lifting;

use vstd::prelude::*;
use crate::metrics::biathlon::Biathlon;
use crate::metrics::running::Running;
use crate::metrics::weight_lifting::WeightLifting;

verus! {

/// The stable tag of a discipline kind, usable as a map or table key.
#[derive(Debug, Clone, Copy, PartialEq, Eq, Hash, Structural)]
pub enum SportKind {
    Running,
    Biathlon,
    WeightLifting,
}

/// One concrete performance record: a closed, tagged union over the
/// discipline kinds. Values are immutable once constructed; replacing a
/// discipline's value means constructing a new record.
#[derive(Debug, Clone, Copy, PartialEq, Eq, Structural)]
pub enum MetricValue {
    Running(Running),
    Biathlon(Biathlon),
    WeightLifting(WeightLifting),
}

impl MetricValue {
    /// The record's kind tag.
    pub open spec fn spec_kind(&self) -> SportKind {
        match self {
            MetricValue::Running(_) => SportKind::Running,
            MetricValue::Biathlon(_) => SportKind::Biathlon,
            MetricValue::WeightLifting(_) => SportKind::WeightLifting,
        }
    }

    /// The record's kind tag.
    #[verifier::when_used_as_spec(spec_kind)]
    pub fn kind(&self) -> (r: SportKind)
        ensures
            r == self.spec_kind(),
    {
        match self {
            MetricValue::Running(_) => SportKind::Running,
            MetricValue::Biathlon(_) => SportKind::Biathlon,
            MetricValue::WeightLifting(_) => SportKind::WeightLifting,
        }
    }
}

impl SportKind {
    /// The kind's human-readable name, used in responses.
    pub fn response_name(&self) -> (r: &'static str)
        ensures
            r@ == self.spec_response_name(),
    {
        match self {
            SportKind::Running => "Running",
            SportKind::Biathlon => "Biathlon",
            SportKind::WeightLifting => "WeightLifting",
        }
    }

    pub open spec fn spec_response_name(&self) -> Seq<char> {
        match self {
            SportKind::Running => "Running"@,
            SportKind::Biathlon => "Biathlon"@,
            SportKind::WeightLifting => "WeightLifting"@,
        }
    }

    /// Parses the discipline segment of a request path. Exactly the three
    /// names of the closed set are accepted; anything else is rejected, so
    /// an unknown kind never reaches the core.
    pub fn from_path_name(name: &str) -> (r: Option<SportKind>)
        ensures
            name@ == "running"@ ==> r == Some(SportKind::Running),
            name@ == "biathlon"@ ==> r == Some(SportKind::Biathlon),
            name@ == "weight_lifting"@ ==> r == Some(SportKind::WeightLifting),
            r is None <==> (name@ != "running"@ && name@ != "biathlon"@ && name@ != "weight_lifting"@),
    {
        proof {
            reveal_strlit("running");
            reveal_strlit("biathlon");
            reveal_strlit("weight_lifting");
            // The three names have distinct lengths, so no two are equal.
            assert("running"@.len() == 7);
            assert("biathlon"@.len() == 8);
            assert("weight_lifting"@.len() == 14);
        }
        // Equality is specified on `String`, not on `&str`, so the segment
        // is compared as an owned string.
        let owned = name.to_owned();
        if owned == "running".to_owned() {
            Some(SportKind::Running)
        } else if owned == "biathlon".to_owned() {
            Some(SportKind::Biathlon)
        } else if owned == "weight_lifting".to_owned() {
            Some(SportKind::WeightLifting)
        } else {
            None
        }
    }
}

} // verus!
