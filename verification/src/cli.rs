//! The command line: the service, the one-shot admin commands, and the flags of a
//! normal launch.

use crate::settings::StartFlags;
use crate::startup;
use crate::text;
use crate::text::{chars_of, copy_range, is_text, same_text, string_of, strip_prefix};
use vstd::prelude::*;
use vstd::string::*;

verus! {

/// A one-shot command that needs elevation: the management of the service and of the
/// logon task.
#[derive(Debug, Clone, Copy, PartialEq, Eq, Structural)]
pub enum AdminCommand {
    SvcInstall,
    SvcUninstall,
    SvcStart,
    SvcStop,
    /// Install and start in one elevated process, so adopting the service costs a
    /// single prompt.
    SvcSetup,
    TaskInstall,
    TaskUninstall,
}

/// The command of this argument.
pub open spec fn command_of(arg: Seq<char>) -> Option<AdminCommand> {
    if arg == "--svc-install"@ {
        Some(AdminCommand::SvcInstall)
    } else if arg == "--svc-uninstall"@ {
        Some(AdminCommand::SvcUninstall)
    } else if arg == "--svc-start"@ {
        Some(AdminCommand::SvcStart)
    } else if arg == "--svc-stop"@ {
        Some(AdminCommand::SvcStop)
    } else if arg == "--svc-setup"@ {
        Some(AdminCommand::SvcSetup)
    } else if arg == "--task-install"@ {
        Some(AdminCommand::TaskInstall)
    } else if arg == "--task-uninstall"@ {
        Some(AdminCommand::TaskUninstall)
    } else {
        None
    }
}

impl AdminCommand {
    /// The command of this argument; none for an unrecognized one.
    pub fn parse(arg: &str) -> (r: Option<Self>)
        ensures
            r == command_of(arg@),
    {
        let chars = chars_of(arg);
        let s = chars.as_slice();
        if is_text(s, "--svc-install") {
            Some(AdminCommand::SvcInstall)
        } else if is_text(s, "--svc-uninstall") {
            Some(AdminCommand::SvcUninstall)
        } else if is_text(s, "--svc-start") {
            Some(AdminCommand::SvcStart)
        } else if is_text(s, "--svc-stop") {
            Some(AdminCommand::SvcStop)
        } else if is_text(s, "--svc-setup") {
            Some(AdminCommand::SvcSetup)
        } else if is_text(s, "--task-install") {
            Some(AdminCommand::TaskInstall)
        } else if is_text(s, "--task-uninstall") {
            Some(AdminCommand::TaskUninstall)
        } else {
            None
        }
    }

    /// The argument that stands for the command.
    pub open spec fn argument_text(self) -> Seq<char> {
        match self {
            AdminCommand::SvcInstall => "--svc-install"@,
            AdminCommand::SvcUninstall => "--svc-uninstall"@,
            AdminCommand::SvcStart => "--svc-start"@,
            AdminCommand::SvcStop => "--svc-stop"@,
            AdminCommand::SvcSetup => "--svc-setup"@,
            AdminCommand::TaskInstall => "--task-install"@,
            AdminCommand::TaskUninstall => "--task-uninstall"@,
        }
    }

    /// The argument that stands for the command.
    pub fn argument(self) -> (r: &'static str)
        ensures
            r@ == self.argument_text(),
    {
        match self {
            AdminCommand::SvcInstall => "--svc-install",
            AdminCommand::SvcUninstall => "--svc-uninstall",
            AdminCommand::SvcStart => "--svc-start",
            AdminCommand::SvcStop => "--svc-stop",
            AdminCommand::SvcSetup => "--svc-setup",
            AdminCommand::TaskInstall => "--task-install",
            AdminCommand::TaskUninstall => "--task-uninstall",
        }
    }
}

/// An elevated relaunch runs the command that it was launched for: a command comes
/// back from its argument.
pub proof fn law_command_round_trip(c: AdminCommand)
    ensures
        command_of(c.argument_text()) == Some(c),
{
    reveal_strlit("--svc-install");
    reveal_strlit("--svc-uninstall");
    reveal_strlit("--svc-start");
    reveal_strlit("--svc-stop");
    reveal_strlit("--svc-setup");
    reveal_strlit("--task-install");
    reveal_strlit("--task-uninstall");
    assert("--svc-install"@.len() == 13);
    assert("--svc-uninstall"@.len() == 15);
    assert("--svc-start"@.len() == 11);
    assert("--svc-stop"@.len() == 10);
    assert("--svc-setup"@.len() == 11);
    assert("--task-install"@.len() == 14);
    assert("--task-uninstall"@.len() == 16);
    assert("--svc-start"@[8] == 'a' && "--svc-setup"@[8] == 't');
}

/// The exit code of a command: 0 for success, 1 for failure.
pub fn exit_code(result: &Result<(), String>) -> (r: i32)
    ensures
        r == if *result is Ok {
            0i32
        } else {
            1i32
        },
{
    match result {
        Ok(_) => 0,
        Err(_) => 1,
    }
}

/// A text without the quotes and backslashes at its end.
pub open spec fn without_tail(s: Seq<char>) -> Seq<char>
    decreases s.len(),
{
    if s.len() > 0 && (s.last() == '"' || s.last() == '\\') {
        without_tail(s.drop_last())
    } else {
        s
    }
}

/// Where the first argument with this text stands; the number of arguments without
/// one.
pub open spec fn first_of(args: Seq<Seq<char>>, arg: Seq<char>) -> nat
    decreases args.len(),
{
    if args.len() == 0 || args[0] == arg {
        0
    } else {
        1 + first_of(args.drop_first(), arg)
    }
}

/// The folder behind the first `--search-here`, if there is one.
pub open spec fn search_here_of(args: Seq<Seq<char>>) -> Option<Seq<char>> {
    let i = first_of(args, "--search-here"@) as int;
    if i + 1 >= args.len() || without_tail(args[i + 1]).len() == 0 {
        None
    } else {
        Some(without_tail(args[i + 1]))
    }
}

/// Where the first argument with this text stands; the number of arguments without
/// one.
fn find(args: &Vec<String>, arg: &str) -> (r: usize)
    ensures
        r == first_of(startup::texts(args@), arg@),
        r <= args@.len(),
        r < args@.len() ==> args@[r as int]@ == arg@,
        forall|k: int| 0 <= k < r ==> startup::texts(args@)[k] != arg@,
{
    let ghost all = startup::texts(args@);
    let mut i: usize = 0;
    assert(all.skip(0) =~= all);
    while i < args.len()
        invariant
            i <= args@.len(),
            all == startup::texts(args@),
            first_of(all, arg@) == i + first_of(all.skip(i as int), arg@),
            forall|k: int| 0 <= k < i ==> all[k] != arg@,
        decreases args@.len() - i,
    {
        assert(all.skip(i as int)[0] == args@[i as int]@);
        assert(all.skip(i as int).drop_first() =~= all.skip(i + 1));
        if same_text(args[i].as_str(), arg) {
            return i;
        }
        i += 1;
    }
    i
}

/// Extract the folder argument of `--search-here <path>` from a command line. The
/// background of a drive root arrives as e.g. `C:"`, since the trailing backslash
/// escapes the closing quote: without trailing quotes and backslashes it still scopes
/// to the drive root rather than a garbage path.
pub fn parse_search_here(args: &Vec<String>) -> (r: Option<String>)
    ensures
        r is Some <==> search_here_of(startup::texts(args@)) is Some,
        r matches Some(p) ==> search_here_of(startup::texts(args@)) == Some(p@),
{
    let i = find(args, "--search-here");
    if i >= args.len() || i + 1 >= args.len() {
        return None;
    }
    let path = chars_of(args[i + 1].as_str());
    let mut end: usize = path.len();
    assert(path@.take(end as int) =~= path@);
    while end > 0 && (path[end - 1] == '"' || path[end - 1] == '\\')
        invariant
            end <= path@.len(),
            without_tail(path@) == without_tail(path@.take(end as int)),
        decreases end,
    {
        assert(path@.take(end as int).drop_last() =~= path@.take(end - 1));
        end -= 1;
    }
    if end == 0 {
        assert(path@.take(0).len() == 0);
        return None;
    }
    let kept = copy_range(path.as_slice(), 0, end);
    assert(kept@ =~= path@.take(end as int));
    Some(string_of(kept.as_slice()))
}

/// Whether an argument looks like an admin command.
pub open spec fn is_admin(arg: Seq<char>) -> bool {
    text::has_prefix(arg, "--svc-"@) || text::has_prefix(arg, "--task-"@)
}

/// Where the first argument that looks like an admin command stands; the number of
/// arguments without one.
pub open spec fn first_admin(args: Seq<Seq<char>>) -> nat
    decreases args.len(),
{
    if args.len() == 0 || is_admin(args[0]) {
        0
    } else {
        1 + first_admin(args.drop_first())
    }
}

/// The admin command of a command line: that of the first argument that looks like
/// one, if it is recognized.
pub open spec fn admin_of(args: Seq<Seq<char>>) -> Option<AdminCommand> {
    let i = first_admin(args) as int;
    if i < args.len() {
        command_of(args[i])
    } else {
        None
    }
}

/// What a launch does.
#[derive(Debug)]
pub enum Launch {
    /// Run the headless index service; never a window.
    Service,
    /// Run a one-shot command, and exit with its status; never a window.
    Admin(AdminCommand),
    /// The normal GUI.
    Gui(StartFlags),
}

/// Whether a launch is what a command line asks for. An unrecognized admin command
/// falls through to the normal GUI rather than exiting silently with no window.
pub open spec fn launches(args: Seq<Seq<char>>, launch: Launch) -> bool {
    if args.contains("--service"@) {
        launch == Launch::Service
    } else {
        match admin_of(args) {
            Some(c) => launch == Launch::Admin(c),
            None => launch matches Launch::Gui(flags) && flags.start_hidden == args.contains(
                "--minimized"@,
            ) && match flags.search_here {
                Some(p) => search_here_of(args) == Some(p@),
                None => search_here_of(args) is None,
            },
        }
    }
}

/// The admin command of a command line.
fn admin_command(args: &Vec<String>) -> (r: Option<AdminCommand>)
    ensures
        r == admin_of(startup::texts(args@)),
{
    let ghost all = startup::texts(args@);
    let mut i: usize = 0;
    assert(all.skip(0) =~= all);
    while i < args.len()
        invariant
            i <= args@.len(),
            all == startup::texts(args@),
            first_admin(all) == i + first_admin(all.skip(i as int)),
        decreases args@.len() - i,
    {
        assert(all.skip(i as int)[0] == args@[i as int]@);
        assert(all.skip(i as int).drop_first() =~= all.skip(i + 1));
        let arg = chars_of(args[i].as_str());
        if strip_prefix(arg.as_slice(), "--svc-").is_some() || strip_prefix(
            arg.as_slice(),
            "--task-",
        ).is_some() {
            return AdminCommand::parse(args[i].as_str());
        }
        i += 1;
    }
    None
}

/// What a command line asks for.
pub fn launch(args: &Vec<String>) -> (r: Launch)
    ensures
        launches(startup::texts(args@), r),
{
    let ghost all = startup::texts(args@);
    let service = find(args, "--service");
    if service < args.len() {
        assert(all[service as int] == "--service"@);
        return Launch::Service;
    }
    assert(!all.contains("--service"@));
    if let Some(command) = admin_command(args) {
        return Launch::Admin(command);
    }
    let minimized = find(args, "--minimized");
    let start_hidden = minimized < args.len();
    if start_hidden {
        assert(all[minimized as int] == "--minimized"@);
    }
    Launch::Gui(StartFlags { start_hidden, search_here: parse_search_here(args) })
}

} // verus!
