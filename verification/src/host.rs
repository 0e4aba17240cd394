//! The background service runtime: the states it reports on its way, how it reacts to
//! controls, and the decisions of its accept loop.

use crate::ipc::PIPE_NAME;
use crate::scm::ServiceState;
use crate::text::around;
use vstd::prelude::*;
use vstd::string::*;

verus! {

/// Cap on concurrently served connections: it bounds threads and memory against a
/// client that floods the pipe.
pub const MAX_INFLIGHT: usize = 64;

/// How many seconds one request may take before its connection's blocking I/O is
/// cancelled, so that a client that never sends a full frame can't pin a handler.
pub const REQUEST_TIMEOUT_SECS: u64 = 10;

/// How many milliseconds the accept loop pauses after a transient error.
pub const ACCEPT_PAUSE_MS: u64 = 100;

/// A control that the service receives.
#[derive(Debug, Clone, Copy, PartialEq, Eq, Structural)]
pub enum Control {
    Stop,
    Shutdown,
    Interrogate,
    Other,
}

/// What the service does with a control.
#[derive(Debug, Clone, Copy, PartialEq, Eq, Structural)]
pub enum Reaction {
    /// Accept it and shut down.
    ShutDown,
    /// Accept it.
    Accept,
    /// It is not implemented.
    Reject,
}

/// What the service does with a control.
pub fn on_control(control: Control) -> (r: Reaction)
    ensures
        r == match control {
            Control::Stop | Control::Shutdown => Reaction::ShutDown,
            Control::Interrogate => Reaction::Accept,
            Control::Other => Reaction::Reject,
        },
{
    match control {
        Control::Stop | Control::Shutdown => Reaction::ShutDown,
        Control::Interrogate => Reaction::Accept,
        Control::Other => Reaction::Reject,
    }
}

/// How far the service has come.
#[derive(Debug, Clone, Copy, PartialEq, Eq, Structural)]
pub enum Stage {
    /// The control handler is registered.
    Registered,
    StartReported,
    /// Indexing and the accept loop are running.
    Launched,
    RunningReported,
    /// A stop was asked for, or the pipe cannot be hosted.
    ShutdownAsked,
    StopReported,
    StoppedReported,
}

/// What the service does at a stage.
#[derive(Debug, Clone, Copy, PartialEq, Eq, Structural)]
pub enum ServiceStep {
    /// Report a state, whether a stop is accepted in it, and how many seconds the next
    /// report may take.
    Report { state: ServiceState, accepts_stop: bool, wait_hint_secs: u64 },
    /// Start indexing, and serve the pipe.
    Launch,
    /// Wait until a shutdown is asked for.
    Wait,
    /// The service is over.
    End,
}

/// What the service does at a stage.
pub open spec fn step_of(stage: Stage) -> ServiceStep {
    match stage {
        Stage::Registered => ServiceStep::Report {
            state: ServiceState::StartPending,
            accepts_stop: false,
            wait_hint_secs: 15,
        },
        Stage::StartReported => ServiceStep::Launch,
        Stage::Launched => ServiceStep::Report {
            state: ServiceState::Running,
            accepts_stop: true,
            wait_hint_secs: 0,
        },
        Stage::RunningReported => ServiceStep::Wait,
        Stage::ShutdownAsked => ServiceStep::Report {
            state: ServiceState::StopPending,
            accepts_stop: false,
            wait_hint_secs: 5,
        },
        Stage::StopReported => ServiceStep::Report {
            state: ServiceState::Stopped,
            accepts_stop: false,
            wait_hint_secs: 0,
        },
        Stage::StoppedReported => ServiceStep::End,
    }
}

/// What the service does at a stage: register, start indexing, serve the pipe until it
/// is asked to stop, then report stopped.
pub fn run_service(stage: Stage) -> (r: ServiceStep)
    ensures
        r == step_of(stage),
{
    match stage {
        Stage::Registered => ServiceStep::Report {
            state: ServiceState::StartPending,
            accepts_stop: false,
            wait_hint_secs: 15,
        },
        Stage::StartReported => ServiceStep::Launch,
        Stage::Launched => ServiceStep::Report {
            state: ServiceState::Running,
            accepts_stop: true,
            wait_hint_secs: 0,
        },
        Stage::RunningReported => ServiceStep::Wait,
        Stage::ShutdownAsked => ServiceStep::Report {
            state: ServiceState::StopPending,
            accepts_stop: false,
            wait_hint_secs: 5,
        },
        Stage::StopReported => ServiceStep::Report {
            state: ServiceState::Stopped,
            accepts_stop: false,
            wait_hint_secs: 0,
        },
        Stage::StoppedReported => ServiceStep::End,
    }
}

/// The number of a stage, from the first to the last.
pub open spec fn stage_number(stage: Stage) -> nat {
    match stage {
        Stage::Registered => 0,
        Stage::StartReported => 1,
        Stage::Launched => 2,
        Stage::RunningReported => 3,
        Stage::ShutdownAsked => 4,
        Stage::StopReported => 5,
        Stage::StoppedReported => 6,
    }
}

/// The stage after a step that succeeded or not: a report that failed ends the
/// service, and so does the end.
pub fn next_stage(stage: Stage, succeeded: bool) -> (r: Option<Stage>)
    ensures
        r is None <==> stage == Stage::StoppedReported || (step_of(stage) is Report && !succeeded),
        r matches Some(next) ==> stage_number(next) == stage_number(stage) + 1,
{
    match stage {
        Stage::StartReported => Some(Stage::Launched),
        Stage::RunningReported => Some(Stage::ShutdownAsked),
        Stage::StoppedReported => None,
        _ => {
            if !succeeded {
                return None;
            }
            match stage {
                Stage::Registered => Some(Stage::StartReported),
                Stage::Launched => Some(Stage::RunningReported),
                Stage::ShutdownAsked => Some(Stage::StopReported),
                _ => Some(Stage::StoppedReported),
            }
        },
    }
}

/// The accept loop of the service.
#[derive(Debug, Clone, Copy, PartialEq, Eq, Structural)]
pub struct Serve {
    pub ever_accepted: bool,
}

impl Serve {
    /// A loop that has not accepted any connection.
    pub fn new() -> (r: Self)
        ensures
            !r.ever_accepted,
    {
        Serve { ever_accepted: false }
    }

    /// A connection was accepted while `inflight` others are served: whether it is
    /// served too. Past the cap it is dropped rather than given an unbounded thread.
    pub fn accepted(&mut self, inflight: usize) -> (r: bool)
        ensures
            final(self).ever_accepted,
            r == (inflight < MAX_INFLIGHT),
    {
        self.ever_accepted = true;
        inflight < MAX_INFLIGHT
    }

    /// A connection could not be accepted. Before any was, the pipe cannot be hosted,
    /// and the loop ends with an error; later it is transient, and the loop pauses so
    /// that it does not spin, and a single misbehaving client can't stop the service.
    pub fn failed(&self, problem: &str) -> (r: Result<(), String>)
        ensures
            match r {
                Ok(_) => self.ever_accepted,
                Err(message) => !self.ever_accepted && message@ == "failed to host pipe "@
                    + PIPE_NAME@ + ": "@ + problem@,
            },
    {
        if self.ever_accepted {
            return Ok(());
        }
        let mut out = around("failed to host pipe ", PIPE_NAME, ": ");
        out.append(problem);
        assert(out@ =~= "failed to host pipe "@ + PIPE_NAME@ + ": "@ + problem@);
        Err(out)
    }
}

} // verus!
