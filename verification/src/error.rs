//! Error values of the simulation core.

use vstd::prelude::*;

verus! {

/// No direction offers a usable step from the queried position.
#[derive(Debug, Clone, Copy, PartialEq, Eq, Structural)]
pub struct NoDirectionError;

impl NoDirectionError {
    /// A short description of the error, for display by callers.
    pub fn message(&self) -> (r: String)
        ensures
            r@ == "No Valid Direction Found"@,
    {
        "No Valid Direction Found".to_owned()
    }
}

} // verus!
