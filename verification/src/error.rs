//! The error reported by strict decoding.

use vstd::prelude::*;

verus! {

/// A zero-sized marker saying that the input could not be decoded.
///
/// It carries no position and no cause: strict decoding either yields the
/// whole string or this value.
#[derive(Clone, Copy, PartialEq, Eq, Debug)]
pub struct DecodingError(pub(crate) ());

impl DecodingError {
    /// The text shown to a user for this error: `invalid input`.
    pub fn message(&self) -> (text: String)
        ensures
            text@ == "invalid input"@,
    {
        "invalid input".to_owned()
    }
}

} // verus!
