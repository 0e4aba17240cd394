//! The logon scheduled task that launches AllTheThings into the tray at sign-in. The
//! task launches the GUI without elevation, so the auto-started instance shares the
//! integrity level of a manual launch and never silently re-elevates.

use crate::text::around;
use vstd::prelude::*;

verus! {

pub const TASK_NAME: &'static str = "AllTheThings";

/// What the task runs: the executable, started into the tray.
pub fn task_command(exe: &str) -> (r: String)
    ensures
        r@ == "\""@ + exe@ + "\" --minimized"@,
{
    around("\"", exe, "\" --minimized")
}

/// The texts, as they are.
pub open spec fn texts(args: Seq<String>) -> Seq<Seq<char>> {
    args.map_values(|a: String| a@)
}

/// The arguments with which `schtasks` registers (or replaces) the task.
pub fn create_arguments(exe: &str) -> (r: Vec<String>)
    ensures
        texts(r@) == seq![
            "/create"@,
            "/tn"@,
            TASK_NAME@,
            "/tr"@,
            "\""@ + exe@ + "\" --minimized"@,
            "/sc"@,
            "onlogon"@,
            "/f"@,
        ],
{
    let mut args: Vec<String> = Vec::new();
    args.push("/create".to_string());
    args.push("/tn".to_string());
    args.push(TASK_NAME.to_string());
    args.push("/tr".to_string());
    args.push(task_command(exe));
    args.push("/sc".to_string());
    args.push("onlogon".to_string());
    args.push("/f".to_string());
    assert(texts(args@) =~= seq![
        "/create"@,
        "/tn"@,
        TASK_NAME@,
        "/tr"@,
        "\""@ + exe@ + "\" --minimized"@,
        "/sc"@,
        "onlogon"@,
        "/f"@,
    ]);
    args
}

/// How registering the task went, given whether `schtasks` succeeded, or why it could
/// not be run.
pub fn registered(ran: Result<bool, String>) -> (r: Result<(), String>)
    ensures
        match ran {
            Ok(true) => r is Ok,
            Ok(false) => r matches Err(message) && message@
                == "schtasks failed to create the startup task (admin required)"@,
            Err(e) => r == Err::<(), String>(e),
        },
{
    match ran {
        Ok(true) => Ok(()),
        Ok(false) => Err(
            "schtasks failed to create the startup task (admin required)".to_string(),
        ),
        Err(e) => Err(e),
    }
}

} // verus!
