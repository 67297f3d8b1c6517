//! The gateway's error type: a plain message, produced by configuration
//! checks and by route selection when no target can be served.

use vstd::prelude::*;

verus! {

/// An error of the gateway core, carrying a human-readable message.
#[derive(Debug, Clone, PartialEq, Eq)]
pub struct AppError(pub String);

impl AppError {
    /// The error's message text.
    pub fn message(&self) -> (r: &String)
        ensures
            r@ == self.0@,
    {
        &self.0
    }
}

} // verus!
