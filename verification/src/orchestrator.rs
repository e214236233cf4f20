//! The daemon run state machine: at most one run at a time, triggers
//! arriving mid-run are queued and drained, never dropped and never run
//! concurrently.

use vstd::prelude::*;

verus! {

/// Whether a run is in progress, and whether a trigger arrived meanwhile.
#[derive(Debug, Clone, Copy, PartialEq, Eq, Structural)]
pub enum RunState {
    Idle,
    Running { queued: bool },
}

/// What the daemon loop must do after a transition.
#[derive(Debug, Clone, Copy, PartialEq, Eq, Structural)]
pub enum RunAction {
    StartRun,
    Wait,
}

/// Handles one trigger (initial invocation, topology change, or source
/// change): an idle daemon starts a run at once; a busy one queues the
/// trigger for after the current run.
pub fn on_trigger(state: RunState) -> (r: (RunState, RunAction))
    ensures
        state is Idle ==> r == (RunState::Running { queued: false }, RunAction::StartRun),
        state is Running ==> r == (RunState::Running { queued: true }, RunAction::Wait),
{
    match state {
        RunState::Idle => (RunState::Running { queued: false }, RunAction::StartRun),
        RunState::Running { queued: _ } => (RunState::Running { queued: true }, RunAction::Wait),
    }
}

/// Handles the end of a run: a queued trigger is drained into a fresh run,
/// otherwise the daemon goes idle.
pub fn on_run_complete(state: RunState) -> (r: (RunState, RunAction))
    requires
        state is Running,
    ensures
        state == (RunState::Running { queued: true }) ==> r == (
            RunState::Running { queued: false },
            RunAction::StartRun,
        ),
        state == (RunState::Running { queued: false }) ==> r == (RunState::Idle, RunAction::Wait),
{
    match state {
        RunState::Running { queued: true } => (
            RunState::Running { queued: false },
            RunAction::StartRun,
        ),
        _ => (RunState::Idle, RunAction::Wait),
    }
}

} // verus!
