//! The service-level response vocabulary: what each client-visible outcome
//! is, which status class it maps to, and its human-readable message.

use vstd::prelude::*;
use crate::error::Error;

verus! {

/// Every outcome the service reports to a client. The two payload-carrying
/// variants name the discipline whose record was involved.
#[derive(Debug, Clone, PartialEq, Eq)]
pub enum Responses {
    PerformanceAdded(&'static str),
    PerformanceRemoved,
    PerformanceNotFound,
    SportsmanNotFound,
    InvalidPerformanceFormat(&'static str),
    Errors(Error),
}

impl Responses {
    pub open spec fn spec_status_code(&self) -> u16 {
        match self {
            Responses::PerformanceAdded(_) => 200,
            Responses::PerformanceRemoved => 200,
            Responses::PerformanceNotFound => 404,
            Responses::SportsmanNotFound => 404,
            Responses::InvalidPerformanceFormat(_) => 400,
            Responses::Errors(e) => e.spec_status_code(),
        }
    }

    /// The HTTP-equivalent status class of this outcome; a wrapped error
    /// keeps its own class.
    pub fn status_code(&self) -> (r: u16)
        ensures
            r == self.spec_status_code(),
    {
        match self {
            Responses::PerformanceAdded(_) => 200,
            Responses::PerformanceRemoved => 200,
            Responses::PerformanceNotFound => 404,
            Responses::SportsmanNotFound => 404,
            Responses::InvalidPerformanceFormat(_) => 400,
            Responses::Errors(e) => e.status_code(),
        }
    }

    pub open spec fn spec_message(&self) -> Seq<char> {
        match self {
            Responses::PerformanceAdded(name) => name@ + " performance added successfully"@,
            Responses::PerformanceRemoved => "Performance removed successfully"@,
            Responses::PerformanceNotFound => "Performance not found"@,
            Responses::SportsmanNotFound => "Sportsman not found"@,
            Responses::InvalidPerformanceFormat(name) => "Invalid "@ + name@ + " format"@,
            Responses::Errors(e) => e.spec_message(),
        }
    }

    /// The short human-readable message of this outcome; never internal
    /// error detail.
    pub fn message(&self) -> (r: String)
        ensures
            r@ == self.spec_message(),
    {
        match self {
            Responses::PerformanceAdded(name) => String::from_str(name).concat(
                " performance added successfully",
            ),
            Responses::PerformanceRemoved => String::from_str("Performance removed successfully"),
            Responses::PerformanceNotFound => String::from_str("Performance not found"),
            Responses::SportsmanNotFound => String::from_str("Sportsman not found"),
            Responses::InvalidPerformanceFormat(name) => String::from_str("Invalid ").concat(
                name,
            ).concat(" format"),
            Responses::Errors(e) => String::from_str(e.message()),
        }
    }
}

} // verus!
