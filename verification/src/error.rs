//! The outcomes that are no results.

use vstd::prelude::*;

verus! {

/// A lookup for an `Id` or a key that the table does not hold.
#[derive(Debug, Clone, Copy, PartialEq, Eq, Structural)]
pub struct NotFound;

impl NotFound {
    /// The words in which the outcome is reported.
    pub fn message(&self) -> (text: &'static str)
        ensures
            text@ == "Not Found"@,
    {
        "Not Found"
    }
}

} // verus!
