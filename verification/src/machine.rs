//! The run state machine. One pre-initialization run moves strictly forward
//! through its stages; any stage may fail, and a failed run never recovers —
//! the caller retries with a new input. The engine and the I/O around it are
//! collaborators outside this crate: they perform each stage's outside work
//! (validation by the external validator, instantiation, invoking the
//! initializer, reading the snapshot) and feed the outcome back as an event.

use crate::ErrorKind;
use vstd::prelude::*;

verus! {

/// The stage a run is in.
#[derive(Clone, PartialEq, Eq, Structural, Debug)]
pub enum RunState {
    /// The input is parsed into its sections.
    Parsed,
    /// The external validator and the extra validation pass accepted it.
    Validated,
    /// The synthetic exports are in place.
    Instrumented,
    /// The engine instantiated the instrumented module.
    Instantiated,
    /// The initializer (and the adapter initializer, if present) returned.
    Initialized,
    /// The final memories and globals are captured.
    Snapshotted,
    /// The output module is emitted.
    Rewritten,
    /// The run is complete.
    Done,
    /// The run failed; no recovery within a run.
    Failed(ErrorKind),
}

/// What the driver reports back after performing a stage's work.
#[derive(Clone, PartialEq, Eq, Structural, Debug)]
pub enum RunEvent {
    /// The external validator and the extra validation pass both accepted.
    ValidationPassed,
    /// The input was rejected; the kind says by which check.
    ValidationFailed(ErrorKind),
    /// Instrumentation produced the augmented module.
    InstrumentedOk,
    /// Instrumentation could not decode a section.
    InstrumentFailed(ErrorKind),
    /// The engine instantiated the module; the initialization export was
    /// present, a function, and of the required empty type.
    InstantiatedOk,
    /// The engine rejected the instrumented module.
    InstantiationRejected,
    /// The initialization export is missing, not a function, or of the wrong
    /// type.
    InitFuncInvalid,
    /// The initializer (and the adapter initializer, if any) returned.
    InitReturned,
    /// Initialization invoked a non-permitted import and trapped there.
    InitCalledImport,
    /// Initialization trapped for any other reason.
    InitTrapped,
    /// The final state was read through the synthetic exports.
    SnapshotTaken,
    /// The rewriter emitted the output module.
    RewriteOk,
    /// The rewriter could not decode a section.
    RewriteFailed(ErrorKind),
    /// The output is handed back to the caller.
    Finished,
}

/// The transition function: the event expected in each state advances the
/// run one stage; a failure event moves it to `Failed` with its kind; an
/// event out of place is a driver defect and fails the run too. A failed run
/// absorbs every further event.
pub open spec fn step_spec(s: RunState, e: RunEvent) -> RunState {
    match s {
        RunState::Failed(k) => RunState::Failed(k),
        RunState::Parsed => match e {
            RunEvent::ValidationPassed => RunState::Validated,
            RunEvent::ValidationFailed(k) => RunState::Failed(k),
            _ => RunState::Failed(ErrorKind::MalformedInput),
        },
        RunState::Validated => match e {
            RunEvent::InstrumentedOk => RunState::Instrumented,
            RunEvent::InstrumentFailed(k) => RunState::Failed(k),
            _ => RunState::Failed(ErrorKind::MalformedInput),
        },
        RunState::Instrumented => match e {
            RunEvent::InstantiatedOk => RunState::Instantiated,
            RunEvent::InstantiationRejected => RunState::Failed(ErrorKind::InstantiationFailed),
            RunEvent::InitFuncInvalid => RunState::Failed(ErrorKind::BadInitFunc),
            _ => RunState::Failed(ErrorKind::MalformedInput),
        },
        RunState::Instantiated => match e {
            RunEvent::InitReturned => RunState::Initialized,
            RunEvent::InitCalledImport => RunState::Failed(ErrorKind::InitCalledImport),
            RunEvent::InitTrapped => RunState::Failed(ErrorKind::InitializationTrapped),
            _ => RunState::Failed(ErrorKind::MalformedInput),
        },
        RunState::Initialized => match e {
            RunEvent::SnapshotTaken => RunState::Snapshotted,
            _ => RunState::Failed(ErrorKind::MalformedInput),
        },
        RunState::Snapshotted => match e {
            RunEvent::RewriteOk => RunState::Rewritten,
            RunEvent::RewriteFailed(k) => RunState::Failed(k),
            _ => RunState::Failed(ErrorKind::MalformedInput),
        },
        RunState::Rewritten => match e {
            RunEvent::Finished => RunState::Done,
            _ => RunState::Failed(ErrorKind::MalformedInput),
        },
        RunState::Done => RunState::Failed(ErrorKind::MalformedInput),
    }
}

/// How far along a run is; `Failed` and `Done` are terminal.
pub open spec fn stage_rank(s: RunState) -> int {
    match s {
        RunState::Parsed => 0,
        RunState::Validated => 1,
        RunState::Instrumented => 2,
        RunState::Instantiated => 3,
        RunState::Initialized => 4,
        RunState::Snapshotted => 5,
        RunState::Rewritten => 6,
        RunState::Done => 7,
        RunState::Failed(_) => 7,
    }
}

/// Advance the run by one event, exactly as `step_spec` describes.
pub fn step(s: &RunState, e: &RunEvent) -> (r: RunState)
    ensures
        r == step_spec(*s, *e),
{
    match s {
        RunState::Failed(k) => RunState::Failed(*k),
        RunState::Parsed => match e {
            RunEvent::ValidationPassed => RunState::Validated,
            RunEvent::ValidationFailed(k) => RunState::Failed(*k),
            _ => RunState::Failed(ErrorKind::MalformedInput),
        },
        RunState::Validated => match e {
            RunEvent::InstrumentedOk => RunState::Instrumented,
            RunEvent::InstrumentFailed(k) => RunState::Failed(*k),
            _ => RunState::Failed(ErrorKind::MalformedInput),
        },
        RunState::Instrumented => match e {
            RunEvent::InstantiatedOk => RunState::Instantiated,
            RunEvent::InstantiationRejected => RunState::Failed(ErrorKind::InstantiationFailed),
            RunEvent::InitFuncInvalid => RunState::Failed(ErrorKind::BadInitFunc),
            _ => RunState::Failed(ErrorKind::MalformedInput),
        },
        RunState::Instantiated => match e {
            RunEvent::InitReturned => RunState::Initialized,
            RunEvent::InitCalledImport => RunState::Failed(ErrorKind::InitCalledImport),
            RunEvent::InitTrapped => RunState::Failed(ErrorKind::InitializationTrapped),
            _ => RunState::Failed(ErrorKind::MalformedInput),
        },
        RunState::Initialized => match e {
            RunEvent::SnapshotTaken => RunState::Snapshotted,
            _ => RunState::Failed(ErrorKind::MalformedInput),
        },
        RunState::Snapshotted => match e {
            RunEvent::RewriteOk => RunState::Rewritten,
            RunEvent::RewriteFailed(k) => RunState::Failed(*k),
            _ => RunState::Failed(ErrorKind::MalformedInput),
        },
        RunState::Rewritten => match e {
            RunEvent::Finished => RunState::Done,
            _ => RunState::Failed(ErrorKind::MalformedInput),
        },
        RunState::Done => RunState::Failed(ErrorKind::MalformedInput),
    }
}

/// Transitions are strictly forward: every step either advances the stage or
/// ends the run in a terminal state.
pub proof fn lemma_forward(s: RunState, e: RunEvent)
    ensures
        stage_rank(step_spec(s, e)) > stage_rank(s) || step_spec(s, e) is Failed || step_spec(
            s,
            e,
        ) is Done,
{
}

/// No recovery within a run: a failed run stays failed with the same kind,
/// whatever events arrive.
pub proof fn lemma_no_recovery(k: ErrorKind, e: RunEvent)
    ensures
        step_spec(RunState::Failed(k), e) == RunState::Failed(k),
{
}

} // verus!
