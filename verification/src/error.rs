//! The library's error type.
use vstd::prelude::*;

verus! {

/// What went wrong, by the part of the runtime that failed, with its message.
#[derive(Debug, Clone, PartialEq, Eq)]
pub enum Error {
    Model(String),
    Tool(String),
    Storage(String),
    Other(String),
}

impl Error {
    /// The message carried by the error, whatever its kind.
    pub open spec fn text(&self) -> Seq<char> {
        match self {
            Error::Model(m) => m@,
            Error::Tool(m) => m@,
            Error::Storage(m) => m@,
            Error::Other(m) => m@,
        }
    }

    /// The error's message.
    pub fn message(&self) -> (s: String)
        ensures
            s@ == self.text(),
    {
        match self {
            Error::Model(m) => m.clone(),
            Error::Tool(m) => m.clone(),
            Error::Storage(m) => m.clone(),
            Error::Other(m) => m.clone(),
        }
    }
}

} // verus!
