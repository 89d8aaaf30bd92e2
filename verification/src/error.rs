//! The library's error type for decode failures.

use vstd::prelude::*;
use vstd::string::StringExecFns;

verus! {

/// An error raised while decoding protocol data or fixtures.
#[derive(Debug, Clone, PartialEq, Eq)]
pub enum SCError {
    Custom(String),
}

impl SCError {
    /// Creates an error from a message.
    pub fn custom(message: &str) -> (r: SCError)
        ensures
            r matches SCError::Custom(s) && s@ == message@,
    {
        SCError::Custom(String::from_str(message))
    }

    /// The error's message.
    pub fn message(&self) -> (r: &str)
        ensures
            self matches SCError::Custom(s) ==> r@ == s@,
    {
        match self {
            SCError::Custom(s) => s.as_str(),
        }
    }
}

/// A shorthand notation for results that fail with an [`SCError`].
pub type SCResult<T> = Result<T, SCError>;

} // verus!
