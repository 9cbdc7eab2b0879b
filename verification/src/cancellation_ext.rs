//! Cooperative cancellation.
//!
//! The dispatcher threads a one-shot cancellation latch through every
//! awaiting operation. The latch itself and the outcome rule of racing an
//! operation against it are verified here; the binary wires the latch to
//! operating-system signals and to the asynchronous select that performs the
//! race.

use vstd::prelude::*;
use vstd::string::StringExecFns;

verus! {

/// Error value returned when an operation is abandoned because the
/// cancellation latch fired first.
#[derive(Clone, Copy, Debug, PartialEq, Eq, Structural)]
pub struct CancellationError;

impl CancellationError {
    /// Human-readable description of the error.
    pub fn message(&self) -> (r: String)
        ensures
            r@ == "Operation was cancelled"@,
    {
        String::from_str("Operation was cancelled")
    }
}

/// A one-shot fan-out cancellation latch: initially unset, it transitions
/// once to set and never resets.
#[derive(Clone, Copy, Debug, PartialEq, Eq, Structural)]
pub struct CancellationScope {
    pub cancelled: bool,
}

/// The latch after a `cancel` call: set, whatever it was before.
pub open spec fn spec_cancel(s: CancellationScope) -> CancellationScope {
    CancellationScope { cancelled: true }
}

/// The outcome of racing a completed operation against the latch: once the
/// latch is set, every wrapped operation resolves to the cancellation error;
/// before that, the operation's own result passes through unchanged.
pub open spec fn spec_cancellation_outcome<T, E>(cancelled: bool, op_result: Result<T, E>) -> Result<
    Result<T, E>,
    CancellationError,
> {
    if cancelled {
        Err(CancellationError)
    } else {
        Ok(op_result)
    }
}

impl CancellationScope {
    pub fn new() -> (r: Self)
        ensures
            !r.cancelled,
    {
        CancellationScope { cancelled: false }
    }

    /// Sets the latch. Idempotent: a second call changes nothing.
    pub fn cancel(&mut self)
        ensures
            *final(self) == spec_cancel(*old(self)),
    {
        self.cancelled = true;
    }

    pub fn is_cancelled(&self) -> (r: bool)
        ensures
            r == self.cancelled,
    {
        self.cancelled
    }
}

/// Resolves the race between a completed operation and the latch state
/// observed when the race was decided.
pub fn with_cancellation_outcome<T, E>(cancelled: bool, op_result: Result<T, E>) -> (r: Result<
    Result<T, E>,
    CancellationError,
>)
    ensures
        r == spec_cancellation_outcome(cancelled, op_result),
{
    if cancelled {
        Err(CancellationError)
    } else {
        Ok(op_result)
    }
}

/// `cancel` is idempotent: the first call sets the latch and every further
/// call leaves it exactly as it is.
pub proof fn lemma_cancel_idempotent(s: CancellationScope)
    ensures
        spec_cancel(spec_cancel(s)) == spec_cancel(s),
        spec_cancel(s).cancelled,
{
}

/// Once the latch is set, every subsequent wrapped operation resolves to the
/// cancellation error, whatever the operation itself would have returned.
pub proof fn lemma_cancelled_wins<T, E>(s: CancellationScope, op_result: Result<T, E>)
    requires
        s.cancelled,
    ensures
        spec_cancellation_outcome::<T, E>(s.cancelled, op_result) == Err::<Result<T, E>,
            CancellationError,
        >(CancellationError),
{
}

} // verus!
