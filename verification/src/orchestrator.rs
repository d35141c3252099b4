//! The orchestrator's phases. The run is strictly sequential with no
//! branching: spawn the receivers, wait the warm-up interval, run the
//! sender, wait the drain interval, then request the stop and join every
//! task. Task failures are collected and reported, never escalated.

use vstd::prelude::*;
use crate::config::ScenarioConfig;

verus! {

/// The five phases of a run, in order, and the terminal state.
#[derive(Clone, Copy, Debug, PartialEq, Eq, Structural)]
pub enum OrchestratorPhase {
    /// Start the receiver tasks.
    Spawn,
    /// Wait for the receivers to bind and join their groups.
    Warmup,
    /// Run the sender to completion.
    SendRun,
    /// Wait for in-flight datagrams to be received.
    Drain,
    /// Request the stop and join every task, collecting the outcomes.
    StopJoin,
    /// Nothing is left to do.
    Done,
}

/// What the process does in each phase.
#[derive(Clone, Copy, Debug, PartialEq, Eq, Structural)]
pub enum OrchestratorAction {
    SpawnReceivers,
    Sleep(u64),
    RunSender,
    StopAndJoin,
    Idle,
}

/// The position of a phase in the strict order of the run.
pub open spec fn phase_index(p: OrchestratorPhase) -> int {
    match p {
        OrchestratorPhase::Spawn => 0,
        OrchestratorPhase::Warmup => 1,
        OrchestratorPhase::SendRun => 2,
        OrchestratorPhase::Drain => 3,
        OrchestratorPhase::StopJoin => 4,
        OrchestratorPhase::Done => 5,
    }
}

/// The action each phase asks for.
pub open spec fn orchestrator_action_spec(c: ScenarioConfig, p: OrchestratorPhase) -> OrchestratorAction {
    match p {
        OrchestratorPhase::Spawn => OrchestratorAction::SpawnReceivers,
        OrchestratorPhase::Warmup => OrchestratorAction::Sleep(c.warmup_ms),
        OrchestratorPhase::SendRun => OrchestratorAction::RunSender,
        OrchestratorPhase::Drain => OrchestratorAction::Sleep(c.drain_ms),
        OrchestratorPhase::StopJoin => OrchestratorAction::StopAndJoin,
        OrchestratorPhase::Done => OrchestratorAction::Idle,
    }
}

/// Decides what the process does in phase `p`.
pub fn orchestrator_action(c: &ScenarioConfig, p: OrchestratorPhase) -> (a: OrchestratorAction)
    ensures
        a == orchestrator_action_spec(*c, p),
{
    match p {
        OrchestratorPhase::Spawn => OrchestratorAction::SpawnReceivers,
        OrchestratorPhase::Warmup => OrchestratorAction::Sleep(c.warmup_ms),
        OrchestratorPhase::SendRun => OrchestratorAction::RunSender,
        OrchestratorPhase::Drain => OrchestratorAction::Sleep(c.drain_ms),
        OrchestratorPhase::StopJoin => OrchestratorAction::StopAndJoin,
        OrchestratorPhase::Done => OrchestratorAction::Idle,
    }
}

/// Advances to the next phase. The phases are strictly sequential: each
/// step moves exactly one position forward until the run is done, and
/// nothing ever moves backward or branches.
pub fn orchestrator_advance(p: OrchestratorPhase) -> (r: OrchestratorPhase)
    ensures
        p != OrchestratorPhase::Done ==> phase_index(r) == phase_index(p) + 1,
        p == OrchestratorPhase::Done ==> r == OrchestratorPhase::Done,
{
    match p {
        OrchestratorPhase::Spawn => OrchestratorPhase::Warmup,
        OrchestratorPhase::Warmup => OrchestratorPhase::SendRun,
        OrchestratorPhase::SendRun => OrchestratorPhase::Drain,
        OrchestratorPhase::Drain => OrchestratorPhase::StopJoin,
        OrchestratorPhase::StopJoin => OrchestratorPhase::Done,
        OrchestratorPhase::Done => OrchestratorPhase::Done,
    }
}

} // verus!
