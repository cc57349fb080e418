//! The decisions of one polyfilled call: convert the parameters, invoke,
//! convert the results back into the host's result slots one by one, and
//! wait for the invocation's completion before the call counts as done.
//! Whoever drives the call performs each step and reports its outcome.
use vstd::prelude::*;

verus! {

/// Why a polyfilled call failed.
#[derive(Clone, Copy, Debug, PartialEq, Eq, Structural)]
pub enum CallFailure {
    /// A parameter or a result could not be converted.
    Conversion,
    /// The invocation failed.
    Invocation,
    /// There are more results than the host has slots for.
    ResultSlots,
    /// The invocation's subchannels did not all finish.
    Transmission,
}

/// Where a polyfilled call stands.
#[derive(Clone, Copy, Debug, PartialEq, Eq, Structural)]
pub enum CallState {
    /// The parameters are being converted.
    ConvertingParams,
    /// The function is being invoked.
    Invoking,
    /// Result `next` of `total` is being converted.
    ConvertingResults { next: usize, total: usize },
    /// The results are in place; the completion is awaited.
    AwaitingCompletion,
    /// The call is done.
    Done,
    /// The call failed; the failure goes to the host.
    Failed(CallFailure),
}

/// The outcome of the step that a call's state asked for.
#[derive(Clone, Copy, Debug, PartialEq, Eq, Structural)]
pub enum CallEvent {
    /// The parameters were converted, or not.
    ParamsConverted(bool),
    /// The invocation returned `results` values, or failed.
    Invoked { ok: bool, results: usize },
    /// The result being converted was converted, or not.
    ResultConverted(bool),
    /// The completion resolved, successfully or not.
    Completed(bool),
}

/// Where a call goes once its results are known: `total` results to put
/// into the host's slots.
pub open spec fn after_results(total: nat) -> CallState {
    if total == 0 {
        CallState::AwaitingCompletion
    } else {
        CallState::ConvertingResults { next: 0, total: total as usize }
    }
}

/// The next state of a call in state `s` on event `e`, where the function
/// declares `declared` results and the host has `slots` result slots.
/// Events that do not answer the state's step leave it as it is.
pub open spec fn next_state(s: CallState, e: CallEvent, declared: nat, slots: nat) -> CallState {
    match (s, e) {
        (CallState::ConvertingParams, CallEvent::ParamsConverted(ok)) => if ok {
            CallState::Invoking
        } else {
            CallState::Failed(CallFailure::Conversion)
        },
        (CallState::Invoking, CallEvent::Invoked { ok, results }) => if !ok {
            CallState::Failed(CallFailure::Invocation)
        } else if results <= declared {
            after_results(results as nat)
        } else {
            after_results(declared)
        },
        (CallState::ConvertingResults { next, total }, CallEvent::ResultConverted(ok)) => if !ok {
            CallState::Failed(CallFailure::Conversion)
        } else if next >= slots {
            CallState::Failed(CallFailure::ResultSlots)
        } else if next + 1 >= total {
            CallState::AwaitingCompletion
        } else {
            CallState::ConvertingResults { next: (next + 1) as usize, total }
        },
        (CallState::AwaitingCompletion, CallEvent::Completed(ok)) => if ok {
            CallState::Done
        } else {
            CallState::Failed(CallFailure::Transmission)
        },
        _ => s,
    }
}

/// The state in which every call starts.
pub fn call_start() -> (r: CallState)
    ensures
        r == CallState::ConvertingParams,
{
    CallState::ConvertingParams
}

/// The next state of a call in state `s` on event `e`, where the function
/// declares `declared` results and the host has `slots` result slots. Only
/// as many results as the function declares are taken; one that finds no
/// slot fails the call.
pub fn call_step(s: CallState, e: CallEvent, declared: usize, slots: usize) -> (r: CallState)
    ensures
        r == next_state(s, e, declared as nat, slots as nat),
{
    match (s, e) {
        (CallState::ConvertingParams, CallEvent::ParamsConverted(ok)) => if ok {
            CallState::Invoking
        } else {
            CallState::Failed(CallFailure::Conversion)
        },
        (CallState::Invoking, CallEvent::Invoked { ok, results }) => {
            if !ok {
                return CallState::Failed(CallFailure::Invocation);
            }
            let total = if results <= declared {
                results
            } else {
                declared
            };
            if total == 0 {
                CallState::AwaitingCompletion
            } else {
                CallState::ConvertingResults { next: 0, total }
            }
        },
        (CallState::ConvertingResults { next, total }, CallEvent::ResultConverted(ok)) => if !ok {
            CallState::Failed(CallFailure::Conversion)
        } else if next >= slots {
            CallState::Failed(CallFailure::ResultSlots)
        } else if next + 1 >= total {
            CallState::AwaitingCompletion
        } else {
            CallState::ConvertingResults { next: next + 1, total }
        },
        (CallState::AwaitingCompletion, CallEvent::Completed(ok)) => if ok {
            CallState::Done
        } else {
            CallState::Failed(CallFailure::Transmission)
        },
        _ => s,
    }
}

/// A call is done only after its completion resolved successfully: no
/// call returns before the invocation's subchannels have all finished.
pub proof fn lemma_done_needs_completion(s: CallState, e: CallEvent, declared: nat, slots: nat)
    requires
        s != CallState::Done,
        next_state(s, e, declared, slots) == CallState::Done,
    ensures
        s == CallState::AwaitingCompletion,
        e == CallEvent::Completed(true),
{
}

/// A failure is never dropped: a failed call stays failed, with the same
/// failure, whatever comes after.
pub proof fn lemma_failure_kept(f: CallFailure, e: CallEvent, declared: nat, slots: nat)
    ensures
        next_state(CallState::Failed(f), e, declared, slots) == CallState::Failed(f),
{
}

} // verus!
