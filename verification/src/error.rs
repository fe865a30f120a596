//! The error taxonomy shared by the tracker, the store boundary and the
//! service layer.

use vstd::prelude::*;

verus! {

/// Everything that can go wrong inside the registry.
///
/// `SportsmanNotFound` and `SportsmanDoesntHasMetric` are the two
/// distinguishable "not found" conditions; `SaveError` and `RemoveError`
/// stand for opaque store failures; `NameTooLong` is the one validation
/// failure, rejected at the boundary before any state is touched.
#[derive(Clone, Copy, Debug, PartialEq, Eq, Structural)]
pub enum Error {
    SportsmanNotFound,
    SportsmanDoesntHasMetric,
    SaveError,
    RemoveError,
    NameTooLong,
}

impl Error {
    /// The short human-readable message for this error; internal detail is
    /// never forwarded.
    pub fn message(&self) -> (r: &'static str)
        ensures
            r@ == self.spec_message(),
    {
        match self {
            Error::SportsmanNotFound => "Sportsman not found",
            Error::SportsmanDoesntHasMetric => "Metric wasn't found",
            Error::SaveError => "Something went wrong",
            Error::RemoveError => "Something went wrong",
            Error::NameTooLong => "Sportsman name is too long",
        }
    }

    pub open spec fn spec_message(&self) -> Seq<char> {
        match self {
            Error::SportsmanNotFound => "Sportsman not found"@,
            Error::SportsmanDoesntHasMetric => "Metric wasn't found"@,
            Error::SaveError => "Something went wrong"@,
            Error::RemoveError => "Something went wrong"@,
            Error::NameTooLong => "Sportsman name is too long"@,
        }
    }

    /// The HTTP-equivalent status class: not found conditions map to 404,
    /// store failures to 500, and the validation failure to 400.
    pub fn status_code(&self) -> (r: u16)
        ensures
            r == self.spec_status_code(),
    {
        match self {
            Error::SportsmanNotFound => 404,
            Error::SportsmanDoesntHasMetric => 404,
            Error::SaveError => 500,
            Error::RemoveError => 500,
            Error::NameTooLong => 400,
        }
    }

    pub open spec fn spec_status_code(&self) -> u16 {
        match self {
            Error::SportsmanNotFound => 404,
            Error::SportsmanDoesntHasMetric => 404,
            Error::SaveError => 500,
            Error::RemoveError => 500,
            Error::NameTooLong => 400,
        }
    }
}

} // verus!
