//! The assignment endpoint's response values.

use vstd::prelude::*;
use vstd::string::StringExecFns;
use crate::dispatcher::{DispatchState, ProcessingMode};

verus! {

/// The claim returned to a supervisor: the process it now owns.
/// Identifiers are carried in canonical hyphenated form and the creation
/// instant as milliseconds since the Unix epoch, as the endpoint serializes
/// them.
#[derive(Debug, PartialEq, Eq)]
pub struct AssignedProcess {
    pub id: String,
    pub source_id: u32,
    pub state: DispatchState,
    pub mode: ProcessingMode,
    pub created_at_ms: i64,
    pub supervisor_id: String,
}

impl AssignedProcess {
    pub fn new(
        id: String,
        source_id: u32,
        state: DispatchState,
        mode: ProcessingMode,
        created_at_ms: i64,
        supervisor_id: String,
    ) -> (r: Self)
        ensures
            r.id@ == id@,
            r.source_id == source_id,
            r.state == state,
            r.mode == mode,
            r.created_at_ms == created_at_ms,
            r.supervisor_id@ == supervisor_id@,
    {
        AssignedProcess { id, source_id, state, mode, created_at_ms, supervisor_id }
    }
}

/// HTTP status and message body for an assignment outcome: a successful
/// claim answers 200 with the claim itself (no extra message), an empty
/// queue answers 204, and a repository failure answers 500 with the reason.
pub fn assign_response_parts(outcome: &Result<Option<AssignedProcess>, String>) -> (r: (
    u16,
    Option<String>,
))
    ensures
        outcome matches Ok(Some(_)) ==> r.0 == 200 && r.1 is None,
        outcome matches Ok(None) ==> r.0 == 204 && (r.1 matches Some(m) && m@
            == "No available processes to assign"@),
        outcome matches Err(e) ==> r.0 == 500 && (r.1 matches Some(m) && m@
            == "Failed to assign process: "@ + e@),
{
    match outcome {
        Ok(Some(_)) => (200, None),
        Ok(None) => (204, Some(String::from_str("No available processes to assign"))),
        Err(e) => (
            500,
            Some(String::from_str("Failed to assign process: ").concat(e.as_str())),
        ),
    }
}

} // verus!
