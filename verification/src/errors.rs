//! Errors of the library.
use vstd::prelude::*;

verus! {

/// Two images that are to be combined differ in size.
#[derive(Debug, Clone, Copy, PartialEq, Eq)]
pub struct SizeMismatchError;

impl SizeMismatchError {
    /// The message shown for the error.
    pub fn message(&self) -> (s: String)
        ensures
            s@ == "Image sizes do not match!"@,
    {
        String::from_str("Image sizes do not match!")
    }
}

} // verus!
