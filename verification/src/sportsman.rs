//! Sportsman identity: an opaque, validated name, unique within the system.

use vstd::prelude::*;
use crate::error::Error;

verus! {

/// The longest name the registry accepts.
pub const MAX_NAME_LEN: usize = 50;

/// A named sportsman. Equality is by name; the name is never mutated after
/// construction. The core only ever sees identities that already passed
/// validation.
#[derive(Debug)]
pub struct Sportsman(String);

impl View for Sportsman {
    type V = Seq<char>;

    closed spec fn view(&self) -> Seq<char> {
        self.0@
    }
}

/// A name the boundary accepts: at most [`MAX_NAME_LEN`] characters.
pub open spec fn valid_name(name: Seq<char>) -> bool {
    name.len() <= MAX_NAME_LEN
}

impl Sportsman {
    /// Validates and wraps a name; rejects names longer than
    /// [`MAX_NAME_LEN`] characters with [`Error::NameTooLong`].
    pub fn new(name: String) -> (r: Result<Self, Error>)
        ensures
            valid_name(name@) ==> (r matches Ok(s) && s@ == name@),
            !valid_name(name@) ==> r == Err::<Self, Error>(Error::NameTooLong),
    {
        if name.as_str().unicode_len() > MAX_NAME_LEN {
            return Err(Error::NameTooLong);
        }
        Ok(Self(name))
    }

    /// Wraps a name that was already validated elsewhere (for example one
    /// read back from the store, which only ever held validated names).
    pub fn unchecked_new(name: String) -> (r: Self)
        ensures
            r@ == name@,
    {
        Self(name)
    }

    /// A copy of the name.
    pub fn name(&self) -> (r: String)
        ensures
            r@ == self@,
    {
        self.0.clone()
    }
}

impl Clone for Sportsman {
    fn clone(&self) -> (r: Self)
        ensures
            r@ == self@,
    {
        Self(self.0.clone())
    }
}

impl PartialEq for Sportsman {
    fn eq(&self, other: &Self) -> (r: bool) {
        self.0 == other.0
    }
}

impl vstd::std_specs::cmp::PartialEqSpecImpl for Sportsman {
    open spec fn obeys_eq_spec() -> bool {
        true
    }

    open spec fn eq_spec(&self, other: &Self) -> bool {
        self@ == other@
    }
}

} // verus!
