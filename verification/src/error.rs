//! The library's error.

use vstd::prelude::*;

verus! {

/// What can go wrong.
#[derive(Debug)]
pub enum Error {
    /// The text is no interface description.
    IdlParse(String),
}

impl View for Error {
    type V = Seq<char>;

    /// What the error says.
    open spec fn view(&self) -> Seq<char> {
        match *self {
            Error::IdlParse(message) => message@,
        }
    }
}

} // verus!
