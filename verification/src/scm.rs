//! The lifecycle of the optional background service as the Service Control Manager
//! keeps it: what its state means to the UI, what its errors say, and the decisions
//! of installing, removing, starting and stopping it. The state is always read back
//! rather than cached, so a service removed or stopped out of band can never leave
//! the UI stale.

use crate::text;
use crate::text::push_signed;
use vstd::prelude::*;
use vstd::string::*;

verus! {

/// The service's registered name.
pub const SERVICE_NAME: &'static str = "AllTheThingsSvc";

pub const DISPLAY_NAME: &'static str = "AllTheThings Index Service";

pub const DESCRIPTION: &'static str =
    "Indexes NTFS volumes in the background so AllTheThings can search without elevation.";

/// The argument with which the service is launched.
pub const SERVICE_ARGUMENT: &'static str = "--service";

pub const ERROR_ACCESS_DENIED: i32 = 5;

pub const ERROR_SERVICE_DOES_NOT_EXIST: i32 = 1060;

pub const ERROR_SERVICE_EXISTS: i32 = 1073;

/// How many seconds an uninstall waits for a running service to stop.
pub const STOP_WAIT_SECS: u64 = 5;

/// How many milliseconds pass between looks at a service that is stopping.
pub const STOP_POLL_MS: u64 = 100;

/// The service's lifecycle as the Settings UI needs it.
#[derive(Debug, Clone, Copy, PartialEq, Eq, Structural)]
pub enum SvcState {
    /// No service is registered.
    NotInstalled,
    /// Registered but not running.
    Stopped,
    /// Registered and running.
    Running,
    /// A start has been requested and is in progress.
    StartPending,
    /// A stop has been requested and is in progress.
    StopPending,
    /// Registered, in some other transient/paused state.
    Other,
}

/// The state of a registered service.
#[derive(Debug, Clone, Copy, PartialEq, Eq, Structural)]
pub enum ServiceState {
    Stopped,
    StartPending,
    StopPending,
    Running,
    ContinuePending,
    PausePending,
    Paused,
}

/// An error of the Service Control Manager.
#[derive(Debug)]
pub enum ScmError {
    /// A failed system call, with its code if there is one and what it says.
    Winapi { code: Option<i32>, text: String },
    /// Any other failure.
    Other(String),
}

/// What a state of a registered service means to the UI.
pub open spec fn shown_state(state: ServiceState) -> SvcState {
    match state {
        ServiceState::Stopped => SvcState::Stopped,
        ServiceState::Running => SvcState::Running,
        ServiceState::StartPending => SvcState::StartPending,
        ServiceState::StopPending => SvcState::StopPending,
        _ => SvcState::Other,
    }
}

/// What a state of a registered service means to the UI.
pub fn map_state(state: ServiceState) -> (r: SvcState)
    ensures
        r == shown_state(state),
{
    match state {
        ServiceState::Stopped => SvcState::Stopped,
        ServiceState::Running => SvcState::Running,
        ServiceState::StartPending => SvcState::StartPending,
        ServiceState::StopPending => SvcState::StopPending,
        _ => SvcState::Other,
    }
}

impl ScmError {
    /// Whether the error is a failed system call with this code.
    pub open spec fn has_code(self, code: i32) -> bool {
        self matches ScmError::Winapi { code: c, .. } && c == Some(code)
    }

    /// Whether the error is a failed system call with this code.
    pub fn is_code(&self, wanted: i32) -> (r: bool)
        ensures
            r == self.has_code(wanted),
    {
        match self {
            ScmError::Winapi { code, .. } => match code {
                Some(c) => *c == wanted,
                None => false,
            },
            ScmError::Other(_) => false,
        }
    }

    /// What the error says to the user.
    pub open spec fn friendly_text(self) -> Seq<char> {
        if self.has_code(ERROR_ACCESS_DENIED) {
            "administrator rights are required to manage the service"@
        } else {
            match self {
                ScmError::Winapi { code, text } => "service operation failed (error "@
                    + text::signed_decimal(
                    match code {
                        Some(c) => c as int,
                        None => 0,
                    },
                ) + "): "@ + text@,
                ScmError::Other(text) => text@,
            }
        }
    }

    /// Turn an error into an actionable message: friendly text for access-denied, and
    /// the real code and message for other system failures.
    pub fn friendly(&self) -> (r: String)
        ensures
            r@ == self.friendly_text(),
    {
        if self.is_code(ERROR_ACCESS_DENIED) {
            return "administrator rights are required to manage the service".to_string();
        }
        match self {
            ScmError::Winapi { code, text } => {
                let mut out = String::new();
                out.append("service operation failed (error ");
                let number: i32 = match code {
                    Some(c) => *c,
                    None => 0,
                };
                push_signed(&mut out, number);
                out.append("): ");
                out.append(text.as_str());
                assert(out@ =~= self.friendly_text());
                out
            },
            ScmError::Other(text) => text.clone(),
        }
    }
}

/// The service's state, given how opening it and querying it went: a service that
/// does not exist is not installed.
pub fn status(opened: Result<Result<ServiceState, ScmError>, ScmError>) -> (r: Result<
    SvcState,
    String,
>)
    ensures
        match opened {
            Ok(Ok(state)) => r == Ok::<SvcState, String>(shown_state(state)),
            Ok(Err(e)) => r matches Err(message) && message@ == e.friendly_text(),
            Err(e) => if e.has_code(ERROR_SERVICE_DOES_NOT_EXIST) {
                r == Ok::<SvcState, String>(SvcState::NotInstalled)
            } else {
                r matches Err(message) && message@ == e.friendly_text()
            },
        },
{
    match opened {
        Ok(Ok(state)) => Ok(map_state(state)),
        Ok(Err(e)) => Err(e.friendly()),
        Err(e) => {
            if e.is_code(ERROR_SERVICE_DOES_NOT_EXIST) {
                Ok(SvcState::NotInstalled)
            } else {
                Err(e.friendly())
            }
        },
    }
}

/// How an operation went, to the user.
pub open spec fn reported(done: Result<(), ScmError>, r: Result<(), String>) -> bool {
    match done {
        Ok(_) => r is Ok,
        Err(e) => r matches Err(message) && message@ == e.friendly_text(),
    }
}

/// How an operation went, to the user.
pub fn report(done: Result<(), ScmError>) -> (r: Result<(), String>)
    ensures
        reported(done, r),
{
    match done {
        Ok(_) => Ok(()),
        Err(e) => Err(e.friendly()),
    }
}

/// How an install went, given how creating the service went: a pre-existing service
/// is success, so the UI reconciles to "installed".
pub fn install(created: Result<(), ScmError>) -> (r: Result<(), String>)
    ensures
        created matches Err(e) && e.has_code(ERROR_SERVICE_EXISTS) ==> r is Ok,
        !(created matches Err(e) && e.has_code(ERROR_SERVICE_EXISTS)) ==> reported(created, r),
{
    match created {
        Ok(_) => Ok(()),
        Err(e) => {
            if e.is_code(ERROR_SERVICE_EXISTS) {
                Ok(())
            } else {
                Err(e.friendly())
            }
        },
    }
}

/// What an uninstall does after it tried to open the service: go on, or end. A
/// service that is already absent is success.
pub fn uninstall(opened: Result<(), ScmError>) -> (r: Option<Result<(), String>>)
    ensures
        match opened {
            Ok(_) => r is None,
            Err(e) => if e.has_code(ERROR_SERVICE_DOES_NOT_EXIST) {
                r matches Some(Ok(_))
            } else {
                r matches Some(Err(message)) && message@ == e.friendly_text()
            },
        },
{
    match opened {
        Ok(_) => None,
        Err(e) => {
            if e.is_code(ERROR_SERVICE_DOES_NOT_EXIST) {
                Some(Ok(()))
            } else {
                Some(Err(e.friendly()))
            }
        },
    }
}

/// Whether an uninstall stops the service before it deletes it, given its state if it
/// could be read: so the binary isn't left running after deletion.
pub fn stops_first(state: Option<ServiceState>) -> (r: bool)
    ensures
        r == (state matches Some(s) && s != ServiceState::Stopped),
{
    match state {
        Some(s) => s != ServiceState::Stopped,
        None => false,
    }
}

/// Whether to look again at a service that is to stop, given its state if it could be
/// read, and whether the wait is over.
pub fn waits_on(over: bool, state: Option<ServiceState>) -> (r: bool)
    ensures
        r == (!over && (state matches Some(s) && s != ServiceState::Stopped)),
{
    !over && stops_first(state)
}

/// Whether a start is needed, given the service's state if it could be read: one that
/// is running or starting is success.
pub fn start_needed(state: Option<ServiceState>) -> (r: bool)
    ensures
        r == (state != Some(ServiceState::Running) && state != Some(ServiceState::StartPending)),
{
    match state {
        Some(s) => s != ServiceState::Running && s != ServiceState::StartPending,
        None => true,
    }
}

/// Whether a stop is needed, given the service's state if it could be read: one that
/// is stopped or stopping is success.
pub fn stop_needed(state: Option<ServiceState>) -> (r: bool)
    ensures
        r == (state != Some(ServiceState::Stopped) && state != Some(ServiceState::StopPending)),
{
    match state {
        Some(s) => s != ServiceState::Stopped && s != ServiceState::StopPending,
        None => true,
    }
}

} // verus!
