//! The two error kinds that cross the core's API: ill-formed documents
//! and documents from an incompatible version of the compiler.

use vstd::prelude::*;

verus! {

/// An error from loading a story document.
#[derive(Debug)]
pub enum InkError {
    /// The document is ill-formed; the message identifies the construct.
    Parse(String),
    /// The document's version lies outside the engine's compatibility
    /// window.
    Version(String),
}

impl InkError {
    /// The human-readable message carried by the error.
    pub fn message(&self) -> (r: &str)
        ensures
            match self {
                InkError::Parse(m) => r@ == m@,
                InkError::Version(m) => r@ == m@,
            },
    {
        match self {
            InkError::Parse(m) => m.as_str(),
            InkError::Version(m) => m.as_str(),
        }
    }

    pub fn is_parse(&self) -> (r: bool)
        ensures
            r == (self is Parse),
    {
        match self {
            InkError::Parse(_) => true,
            _ => false,
        }
    }

    pub fn is_version(&self) -> (r: bool)
        ensures
            r == (self is Version),
    {
        match self {
            InkError::Version(_) => true,
            _ => false,
        }
    }
}

} // verus!
