//! The Explorer "Search AllTheThings here" context-menu entry: the per-user registry
//! keys it consists of, what stands in them, and the steps of writing and removing
//! them.

use crate::text;
use crate::text::around;
use vstd::prelude::*;
use vstd::string::*;

verus! {

pub const VERB_LABEL: &'static str = "Search AllTheThings here";

/// Right-click on a folder.
pub const DIRECTORY_KEY: &'static str = "Software\\Classes\\Directory\\shell\\AllTheThings";

/// Right-click the background of an open folder.
pub const BACKGROUND_KEY: &'static str =
    "Software\\Classes\\Directory\\Background\\shell\\AllTheThings";

pub const ERROR_SUCCESS: u32 = 0;

pub const ERROR_FILE_NOT_FOUND: u32 = 2;

/// Whether the context-menu entry is fully registered, given whether the folder and
/// the folder-background verbs exist. A partial register honestly counts as "off", so
/// that the next toggle rewrites both.
pub fn is_registered(directory: bool, background: bool) -> (r: bool)
    ensures
        r == (directory && background),
{
    directory && background
}

/// How removing the entry went, given how removing its keys went, both of which are
/// always attempted.
pub fn unregister(directory: Result<(), String>, background: Result<(), String>) -> (r: Result<
    (),
    String,
>)
    ensures
        r == match directory {
            Ok(_) => background,
            Err(e) => Err(e),
        },
{
    match directory {
        Ok(_) => background,
        Err(e) => Err(e),
    }
}

/// The command of a verb: the executable with `--search-here` and what Explorer puts
/// in the place of `placeholder` (`%1` the clicked path, `%V` the folder background).
pub fn verb_command(exe: &str, placeholder: &str) -> (r: String)
    ensures
        r@ == "\""@ + exe@ + "\" --search-here \""@ + placeholder@ + "\""@,
{
    let mut out = around("\"", exe, "\" --search-here \"");
    out.append(placeholder);
    out.append("\"");
    assert(out@ =~= "\""@ + exe@ + "\" --search-here \""@ + placeholder@ + "\""@);
    out
}

/// The subkey that holds a verb's command.
pub fn command_key(base: &str) -> (r: String)
    ensures
        r@ == base@ + "\\command"@,
{
    let out = around("", base, "\\command");
    proof {
        reveal_strlit("");
    }
    assert(out@ =~= base@ + "\\command"@);
    out
}

/// A registry problem: what was attempted, on what, and its code.
pub open spec fn problem_of(what: Seq<char>, code: u32) -> Seq<char> {
    what + " (error "@ + text::decimal(code as nat) + ")"@
}

fn problem(what: &str, code: u32) -> (r: String)
    ensures
        r@ == problem_of(what@, code),
{
    let mut out = String::new();
    out.append(what);
    out.append(" (error ");
    text::push_decimal(&mut out, code as u64);
    out.append(")");
    assert(out@ =~= problem_of(what@, code));
    out
}

/// How creating a key went, given its code.
pub fn created(subkey: &str, code: u32) -> (r: Result<(), String>)
    ensures
        match r {
            Ok(_) => code == ERROR_SUCCESS,
            Err(message) => code != ERROR_SUCCESS && message@ == problem_of(
                "registry create failed for "@ + subkey@,
                code,
            ),
        },
{
    if code == ERROR_SUCCESS {
        return Ok(());
    }
    let what = around("registry create failed for ", subkey, "");
    proof {
        reveal_strlit("");
    }
    assert(what@ =~= "registry create failed for "@ + subkey@);
    Err(problem(what.as_str(), code))
}

/// How setting a value went, given its code.
pub fn value_set(code: u32) -> (r: Result<(), String>)
    ensures
        match r {
            Ok(_) => code == ERROR_SUCCESS,
            Err(message) => code != ERROR_SUCCESS && message@ == problem_of(
                "registry set value failed"@,
                code,
            ),
        },
{
    if code == ERROR_SUCCESS {
        return Ok(());
    }
    Err(problem("registry set value failed", code))
}

/// How deleting a key went, given its code. A key that is already absent is success.
pub fn deleted(subkey: &str, code: u32) -> (r: Result<(), String>)
    ensures
        match r {
            Ok(_) => code == ERROR_SUCCESS || code == ERROR_FILE_NOT_FOUND,
            Err(message) => code != ERROR_SUCCESS && code != ERROR_FILE_NOT_FOUND && message@
                == problem_of("registry delete failed for "@ + subkey@, code),
        },
{
    if code == ERROR_SUCCESS || code == ERROR_FILE_NOT_FOUND {
        return Ok(());
    }
    let what = around("registry delete failed for ", subkey, "");
    proof {
        reveal_strlit("");
    }
    assert(what@ =~= "registry delete failed for "@ + subkey@);
    Err(problem(what.as_str(), code))
}

/// A step of writing one verb: the label and the icon on the base key, and the command
/// on its `command` subkey.
#[derive(Debug)]
pub enum VerbStep {
    CreateBase,
    SetLabel,
    /// Set the icon, whatever setting the label came to.
    SetIcon { label: Result<(), String> },
    CreateCommand,
    SetCommand,
    /// Delete the whole subtree: a half-written verb (base present but command
    /// missing) would otherwise count as registered while the menu entry is inert.
    RollBack { problem: String },
    Done(Result<(), String>),
}

/// The step after one that came to this outcome.
pub open spec fn verb_step_of(step: VerbStep, outcome: Result<(), String>) -> VerbStep {
    match step {
        VerbStep::CreateBase => match outcome {
            Ok(_) => VerbStep::SetLabel,
            Err(problem) => VerbStep::RollBack { problem },
        },
        VerbStep::SetLabel => VerbStep::SetIcon { label: outcome },
        VerbStep::SetIcon { label } => match (label, outcome) {
            (Err(problem), _) => VerbStep::RollBack { problem },
            (Ok(_), Err(problem)) => VerbStep::RollBack { problem },
            (Ok(_), Ok(_)) => VerbStep::CreateCommand,
        },
        VerbStep::CreateCommand => match outcome {
            Ok(_) => VerbStep::SetCommand,
            Err(problem) => VerbStep::RollBack { problem },
        },
        VerbStep::SetCommand => match outcome {
            Ok(_) => VerbStep::Done(Ok(())),
            Err(problem) => VerbStep::RollBack { problem },
        },
        VerbStep::RollBack { problem } => VerbStep::Done(Err(problem)),
        VerbStep::Done(result) => VerbStep::Done(result),
    }
}

/// The step of writing a verb after one that came to this outcome.
pub fn write_verb(step: VerbStep, outcome: Result<(), String>) -> (r: VerbStep)
    ensures
        r == verb_step_of(step, outcome),
{
    match step {
        VerbStep::CreateBase => match outcome {
            Ok(_) => VerbStep::SetLabel,
            Err(problem) => VerbStep::RollBack { problem },
        },
        VerbStep::SetLabel => VerbStep::SetIcon { label: outcome },
        VerbStep::SetIcon { label } => match label {
            Err(problem) => VerbStep::RollBack { problem },
            Ok(_) => match outcome {
                Err(problem) => VerbStep::RollBack { problem },
                Ok(_) => VerbStep::CreateCommand,
            },
        },
        VerbStep::CreateCommand => match outcome {
            Ok(_) => VerbStep::SetCommand,
            Err(problem) => VerbStep::RollBack { problem },
        },
        VerbStep::SetCommand => match outcome {
            Ok(_) => VerbStep::Done(Ok(())),
            Err(problem) => VerbStep::RollBack { problem },
        },
        VerbStep::RollBack { problem } => VerbStep::Done(Err(problem)),
        VerbStep::Done(result) => VerbStep::Done(result),
    }
}

/// How many steps a verb takes at most from a step to its end.
pub open spec fn steps_left(step: VerbStep) -> nat {
    match step {
        VerbStep::CreateBase => 6,
        VerbStep::SetLabel => 5,
        VerbStep::SetIcon { .. } => 4,
        VerbStep::CreateCommand => 3,
        VerbStep::SetCommand => 2,
        VerbStep::RollBack { .. } => 1,
        VerbStep::Done(_) => 0,
    }
}

/// Writing a verb ends, whatever its steps come to: each step brings it nearer to its
/// end.
pub proof fn law_verb_ends(step: VerbStep, outcome: Result<(), String>)
    requires
        !(step is Done),
    ensures
        steps_left(verb_step_of(step, outcome)) < steps_left(step),
{
}

/// A verb that was written without success has been rolled back: a failed end only
/// follows a rollback, and a rollback always ends in failure.
pub proof fn law_verb_rolled_back(step: VerbStep, outcome: Result<(), String>)
    requires
        !(step is Done),
    ensures
        verb_step_of(step, outcome) matches VerbStep::Done(Err(_)) ==> step is RollBack,
        step is RollBack ==> (verb_step_of(step, outcome) matches VerbStep::Done(Err(_))),
{
}

} // verus!
