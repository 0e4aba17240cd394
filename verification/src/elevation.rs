//! Process elevation. The GUI runs unelevated; the operations that genuinely need
//! admin relaunch the executable elevated to run a one-shot command, then wait for
//! its result.

use crate::text;
use crate::text::around_number;
use vstd::prelude::*;

verus! {

/// The code of a prompt for elevation that the user declined.
pub const ERROR_CANCELLED: u32 = 1223;

/// What an elevated relaunch came to.
#[derive(Debug, Clone, Copy, PartialEq, Eq, Structural)]
pub enum Relaunch {
    /// It could not be launched, with this code.
    Failed { code: u32 },
    /// It was launched without a process to wait for.
    NotStarted,
    /// Its exit code could not be read.
    NoResult,
    /// It ended with this exit code.
    Exited { code: u32 },
}

/// What the user is told of a relaunch; nothing when it succeeded.
pub open spec fn relaunch_problem(outcome: Relaunch) -> Option<Seq<char>> {
    match outcome {
        Relaunch::Failed { code } => Some(
            if code == ERROR_CANCELLED {
                "elevation was declined"@
            } else {
                "could not relaunch elevated (error "@ + text::decimal(code as nat) + ")"@
            },
        ),
        Relaunch::NotStarted => Some("the elevated helper did not start"@),
        Relaunch::NoResult => Some("could not read the elevated helper's result"@),
        Relaunch::Exited { code } => if code == 0 {
            None
        } else {
            Some("the service operation failed when run elevated"@)
        },
    }
}

/// Map what an elevated relaunch came to, to a result.
pub fn run_elevated(outcome: Relaunch) -> (r: Result<(), String>)
    ensures
        match r {
            Ok(_) => relaunch_problem(outcome) is None,
            Err(message) => relaunch_problem(outcome) == Some(message@),
        },
{
    match outcome {
        Relaunch::Failed { code } => {
            if code == ERROR_CANCELLED {
                Err("elevation was declined".to_string())
            } else {
                Err(around_number("could not relaunch elevated (error ", code as u64, ")"))
            }
        },
        Relaunch::NotStarted => Err("the elevated helper did not start".to_string()),
        Relaunch::NoResult => Err("could not read the elevated helper's result".to_string()),
        Relaunch::Exited { code } => {
            if code == 0 {
                Ok(())
            } else {
                Err("the service operation failed when run elevated".to_string())
            }
        },
    }
}

} // verus!
