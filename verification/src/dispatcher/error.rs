//! Error kind surfaced by the dispatcher core.

use vstd::prelude::*;
use vstd::string::StringExecFns;

verus! {

/// The two failures the core distinguishes: a database-layer failure,
/// carried as the driver's message, and the arrival of a terminating
/// signal observed through the cancellation latch.
#[derive(Debug, PartialEq, Eq)]
pub enum DispatcherError {
    DbError(String),
    TerminatingSignalReceived,
}

impl DispatcherError {
    /// Human-readable description of the error.
    pub fn message(&self) -> (r: String)
        ensures
            self matches DispatcherError::DbError(e) ==> r@ == "DbError: "@ + e@,
            self matches DispatcherError::TerminatingSignalReceived ==> r@
                == "TerminatingSignalReceived"@,
    {
        match self {
            DispatcherError::DbError(e) => String::from_str("DbError: ").concat(e.as_str()),
            DispatcherError::TerminatingSignalReceived => String::from_str(
                "TerminatingSignalReceived",
            ),
        }
    }
}

} // verus!
