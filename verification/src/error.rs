//! The error type every fallible operation of this crate reports.

use vstd::prelude::*;

verus! {

/// An error with a human-readable message.
#[derive(Debug)]
pub enum Error {
    Generic { underlying: String },
}

impl Error {
    /// An error carrying the given message.
    pub fn bail(msg: &str) -> (r: Error)
        ensures
            r matches Error::Generic { underlying } && underlying@ == msg@,
    {
        Error::Generic { underlying: crate::text::str_to_string(msg) }
    }

    /// An error carrying the message of another, already rendered error.
    pub fn from(underlying: String) -> (r: Error)
        ensures
            r matches Error::Generic { underlying: u } && u@ == underlying@,
    {
        Error::Generic { underlying }
    }

    /// The message of the error.
    pub fn message(&self) -> (r: &String)
        ensures
            self matches Error::Generic { underlying } && r@ == underlying@,
    {
        match self {
            Error::Generic { underlying } => underlying,
        }
    }
}

} // verus!
