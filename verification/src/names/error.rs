//! The error that the name validators return.

use vstd::prelude::*;

verus! {

/// Why a piece of text was not accepted as a name.
#[derive(Clone, Copy, Debug, PartialEq, Eq)]
pub enum Error {
    /// The text breaks the rules of the name kind; the message says which kind.
    InvalidName(&'static str),
}

impl Error {
    /// The characters of the message that describes the error.
    pub open spec fn text(&self) -> Seq<char> {
        match self {
            Error::InvalidName(m) => m@,
        }
    }

    /// The message that describes the error.
    pub fn message(&self) -> (m: &'static str)
        ensures
            *self == Error::InvalidName(m),
    {
        match self {
            Error::InvalidName(m) => m,
        }
    }

    /// The error as text.
    pub fn to_string(&self) -> (s: String)
        ensures
            s@ == self.text(),
    {
        self.message().to_owned()
    }
}

} // verus!
