//! The named pipe: how its instances are opened, who may connect, and how a client
//! reacts to the failures of connecting and reading.

use vstd::prelude::*;

verus! {

pub const PIPE_ACCESS_DUPLEX: u32 = 0x0000_0003;

pub const FILE_FLAG_FIRST_PIPE_INSTANCE: u32 = 0x0008_0000;

pub const ERROR_FILE_NOT_FOUND: u32 = 2;

pub const ERROR_BROKEN_PIPE: u32 = 109;

pub const ERROR_PIPE_BUSY: u32 = 231;

pub const ERROR_PIPE_CONNECTED: u32 = 535;

/// How many milliseconds a client waits for a free instance.
pub const BUSY_WAIT_MS: u32 = 300;

/// How many milliseconds a client pauses while the server is not up yet.
pub const CONNECT_PAUSE_MS: u64 = 50;

/// Who may connect: authenticated users get read and write (duplex request and
/// response); the system and administrators get full control. Nobody else, and no
/// anonymous caller.
pub const PIPE_SDDL: &'static str = "D:(A;;GRGW;;;AU)(A;;GA;;;SY)(A;;GA;;;BA)";

/// How an instance is opened: the first one so that a pre-existing pipe of the same
/// name causes a clean failure rather than chaining on.
pub fn open_mode(first: bool) -> (r: u32)
    ensures
        r == if first {
            PIPE_ACCESS_DUPLEX | FILE_FLAG_FIRST_PIPE_INSTANCE
        } else {
            PIPE_ACCESS_DUPLEX
        },
{
    if first {
        PIPE_ACCESS_DUPLEX | FILE_FLAG_FIRST_PIPE_INSTANCE
    } else {
        PIPE_ACCESS_DUPLEX
    }
}

/// How waiting for a client went, given the code of its failure if it failed. A client
/// that connected before the wait is fine.
pub fn accepted(failure: Option<u32>) -> (r: Result<(), u32>)
    ensures
        r == match failure {
            None => Ok::<(), u32>(()),
            Some(code) => if code == ERROR_PIPE_CONNECTED {
                Ok(())
            } else {
                Err(code)
            },
        },
{
    match failure {
        None => Ok(()),
        Some(code) => {
            if code == ERROR_PIPE_CONNECTED {
                Ok(())
            } else {
                Err(code)
            }
        },
    }
}

/// How many bytes a read gave, given the code of its failure if it failed. A closed
/// peer reads as a clean end, not an error.
pub fn bytes_read(read: u32, failure: Option<u32>) -> (r: Result<u32, u32>)
    ensures
        r == match failure {
            None => Ok::<u32, u32>(read),
            Some(code) => if code == ERROR_BROKEN_PIPE {
                Ok(0)
            } else {
                Err(code)
            },
        },
{
    match failure {
        None => Ok(read),
        Some(code) => {
            if code == ERROR_BROKEN_PIPE {
                Ok(0)
            } else {
                Err(code)
            }
        },
    }
}

/// What a client does after it could not open the pipe.
#[derive(Debug, Clone, Copy, PartialEq, Eq, Structural)]
pub enum ConnectStep {
    /// All instances are busy, so the server is present: wait for one to free up. Past
    /// the deadline the next attempt is the last one.
    WaitFree,
    /// The server is not up yet and time remains: pause, and try again.
    Pause,
    /// Give up with this code.
    Fail { code: u32 },
}

/// What a client does after it could not open the pipe.
pub open spec fn connect_step_of(code: u32, expired: bool) -> ConnectStep {
    if code == ERROR_PIPE_BUSY {
        ConnectStep::WaitFree
    } else if code == ERROR_FILE_NOT_FOUND && !expired {
        ConnectStep::Pause
    } else {
        ConnectStep::Fail { code }
    }
}

/// What a client does after it could not open the pipe with this code, given whether
/// its deadline has passed.
pub fn connect(code: u32, expired: bool) -> (r: ConnectStep)
    ensures
        r == connect_step_of(code, expired),
{
    if code == ERROR_PIPE_BUSY {
        ConnectStep::WaitFree
    } else if code == ERROR_FILE_NOT_FOUND && !expired {
        ConnectStep::Pause
    } else {
        ConnectStep::Fail { code }
    }
}

/// A client without time fails at once when no server listens: a missing service
/// degrades instantly instead of stalling the UI.
pub proof fn law_fail_fast(code: u32)
    requires
        code != ERROR_PIPE_BUSY,
    ensures
        connect_step_of(code, true) == (ConnectStep::Fail { code }),
{
}

} // verus!
