//! The error surface of the abstraction: every fallible operation reports
//! either success or a backend failure, never a panic.
use vstd::prelude::*;

verus! {

/// A failure reported by the backing storage engine. The in-memory reference
/// backend never produces one; a durable binding surfaces its engine's
/// failures through this type, carrying the engine's message.
#[derive(Clone, Debug)]
pub enum Error {
    Backend(String),
}

impl Error {
    /// The engine's message, for callers that want to display the failure.
    pub fn message(&self) -> (r: String)
        ensures
            self matches Error::Backend(m) ==> r == m,
    {
        match self {
            Error::Backend(m) => m.clone(),
        }
    }
}

} // verus!
