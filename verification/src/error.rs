//! The library's error type.
use vstd::prelude::*;

verus! {

/// An error with a message for the user.
#[derive(Debug)]
pub enum Error {
    /// The message describes what failed.
    Message(String),
}

impl Error {
    /// The message of the error.
    pub open spec fn message(&self) -> Seq<char> {
        match self {
            Error::Message(m) => m@,
        }
    }

    /// The message of the error, as a string slice.
    pub fn text(&self) -> (r: &str)
        ensures
            r@ == self.message(),
    {
        match self {
            Error::Message(m) => m.as_str(),
        }
    }
}

} // verus!
