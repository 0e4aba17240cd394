//! Laws of the background service, of the settings and of the command line.

use crate::cli;
use crate::cli::{AdminCommand, Launch};
use crate::elevation;
use crate::elevation::Relaunch;
use crate::host;
use crate::host::{Control, Reaction, ServiceStep, Stage};
use crate::scm;
use crate::scm::{ScmError, ServiceState, SvcState};
use crate::settings;
use crate::settings::{HotkeyChange, MenuAction, Settings, SettingsChange, TaskAction};
use crate::startup;
use vstd::prelude::*;

verus! {

/// Whether a failure has a code.
pub open spec fn coded(e: ScmError, code: i32) -> bool {
    e matches ScmError::Winapi { code: c, .. } && c == Some(code)
}

/// What the settings show of the service: that it is not installed where there is none to
/// open, and else its state; the pauses are none of the others.
pub proof fn law_service_status(
    opened: Result<Result<ServiceState, ScmError>, ScmError>,
    r: Result<SvcState, String>,
)
    requires
        call_ensures(scm::status, (opened,), r),
    ensures
        r == Ok::<SvcState, String>(SvcState::NotInstalled) <==> (opened matches Err(e) && coded(
            e,
            1060,
        )),
        r == Ok::<SvcState, String>(SvcState::Running) <==> opened == Ok::<
            Result<ServiceState, ScmError>,
            ScmError,
        >(Ok(ServiceState::Running)),
        r == Ok::<SvcState, String>(SvcState::Stopped) <==> opened == Ok::<
            Result<ServiceState, ScmError>,
            ScmError,
        >(Ok(ServiceState::Stopped)),
        r == Ok::<SvcState, String>(SvcState::StartPending) <==> opened == Ok::<
            Result<ServiceState, ScmError>,
            ScmError,
        >(Ok(ServiceState::StartPending)),
        r == Ok::<SvcState, String>(SvcState::StopPending) <==> opened == Ok::<
            Result<ServiceState, ScmError>,
            ScmError,
        >(Ok(ServiceState::StopPending)),
        r is Err <==> (opened matches Ok(Err(_))) || (opened matches Err(e) && !coded(e, 1060)),
{
}

/// Installing a service that is there and removing one that is not have nothing to do.
pub proof fn law_service_again(
    created: Result<(), ScmError>,
    installed: Result<(), String>,
    opened: Result<(), ScmError>,
    removed: Option<Result<(), String>>,
)
    requires
        call_ensures(scm::install, (created,), installed),
        call_ensures(scm::uninstall, (opened,), removed),
    ensures
        installed is Ok <==> created is Ok || (created matches Err(e) && coded(e, 1073)),
        removed is None <==> opened is Ok,
        removed matches Some(r) ==> (r is Ok <==> (opened matches Err(e) && coded(e, 1060))),
{
}

/// A failure for want of rights says that these are needed; another one says its code and
/// what the system says of it.
pub proof fn law_service_failure(e: ScmError, done: Result<(), ScmError>, r: Result<(), String>)
    requires
        call_ensures(scm::report, (done,), r),
        done == Err::<(), ScmError>(e),
    ensures
        coded(e, 5) ==> (r matches Err(m) && m@
            == "administrator rights are required to manage the service"@),
        !coded(e, 5) ==> (e matches ScmError::Other(t) ==> (r matches Err(m) && m@ == t@)),
        r is Err,
{
}

/// A service is started unless it runs or is about to, stopped unless it has stopped or is
/// about to, and before it is removed stopped unless it has stopped.
pub proof fn law_service_needs(
    state: Option<ServiceState>,
    over: bool,
    start: bool,
    stop: bool,
    first: bool,
    waits: bool,
)
    requires
        call_ensures(scm::start_needed, (state,), start),
        call_ensures(scm::stop_needed, (state,), stop),
        call_ensures(scm::stops_first, (state,), first),
        call_ensures(scm::waits_on, (over, state), waits),
    ensures
        state is None ==> start && stop && !first && !waits,
        state matches Some(s) ==> {
            &&& start <==> !(s is Running || s is StartPending)
            &&& stop <==> !(s is Stopped || s is StopPending)
            &&& first <==> !(s is Stopped)
            &&& waits <==> !over && !(s is Stopped)
        },
{
}

/// A request to stop and the shutdown of the system end the service; a question is
/// accepted, and nothing else.
pub proof fn law_control(control: Control, r: Reaction)
    requires
        call_ensures(host::on_control, (control,), r),
    ensures
        r is ShutDown <==> control is Stop || control is Shutdown,
        r is Accept <==> control is Interrogate,
{
}

/// The service accepts a stop exactly while it says that it runs, says before its work
/// that it starts and after it that it stops and has stopped, in this order.
pub proof fn law_service_life(stage: Stage, succeeded: bool, step: ServiceStep, next: Option<Stage>)
    requires
        call_ensures(host::run_service, (stage,), step),
        call_ensures(host::next_stage, (stage, succeeded), next),
    ensures
        step matches ServiceStep::Report { state, accepts_stop, .. } ==> (accepts_stop <==> state
            is Running),
        stage is Registered ==> (step matches ServiceStep::Report { state, .. } && state
            is StartPending),
        stage is StartReported ==> step is Launch,
        stage is Launched ==> (step matches ServiceStep::Report { state, .. } && state is Running),
        stage is RunningReported ==> step is Wait,
        stage is ShutdownAsked ==> (step matches ServiceStep::Report { state, .. } && state
            is StopPending),
        stage is StopReported ==> (step matches ServiceStep::Report { state, .. } && state
            is Stopped),
        stage is StoppedReported ==> step is End && next is None,
        step is Report && !succeeded ==> next is None,
        succeeded && stage is Registered ==> next == Some(Stage::StartReported),
        stage is StartReported ==> next == Some(Stage::Launched),
        succeeded && stage is Launched ==> next == Some(Stage::RunningReported),
        stage is RunningReported ==> next == Some(Stage::ShutdownAsked),
        succeeded && stage is ShutdownAsked ==> next == Some(Stage::StopReported),
        succeeded && stage is StopReported ==> next == Some(Stage::StoppedReported),
{
}

/// A change of settings ends with the task and the menu as they are found and with the
/// hotkey as it was stored; what was asked for decides the rest.
pub proof fn law_settled(
    c: SettingsChange,
    task: bool,
    menu: bool,
    stored: Settings,
    r: Settings,
)
    requires
        call_ensures(SettingsChange::settled, (&c, task, menu, &stored), r),
    ensures
        r.run_at_startup == task,
        r.explorer_menu == menu,
        r.hotkey == stored.hotkey,
        r.close_to_tray == c.wanted.close_to_tray,
{
}

/// Settings that are read show the task and the menu as they are found.
pub proof fn law_reconciled(s: Settings, task: bool, menu: bool, r: Settings)
    requires
        call_ensures(Settings::reconciled, (s, task, menu), r),
    ensures
        r.run_at_startup == task,
        r.explorer_menu == menu,
        r.hotkey == s.hotkey,
        r.close_to_tray == s.close_to_tray,
{
}

/// The task and the menu entry are changed only where they are not as wanted, and then to
/// what is wanted; a task without the rights only in another process.
pub proof fn law_settings_actions(
    c: SettingsChange,
    exists: bool,
    elevated: bool,
    task: TaskAction,
    menu: MenuAction,
)
    requires
        call_ensures(SettingsChange::task_action, (&c, exists, elevated), task),
        call_ensures(SettingsChange::menu_action, (&c, exists), menu),
    ensures
        task is Keep <==> c.wanted.run_at_startup == exists,
        task is Apply ==> elevated,
        task is Relaunch ==> !elevated,
        task matches TaskAction::Apply { enable } ==> enable == c.wanted.run_at_startup,
        task matches TaskAction::Relaunch { enable } ==> enable == c.wanted.run_at_startup,
        menu is Keep <==> c.wanted.explorer_menu == exists,
        menu is Register <==> c.wanted.explorer_menu && !exists,
        menu is Unregister <==> !c.wanted.explorer_menu && exists,
{
}

/// A change of settings reports the first problem that came up, and without one what
/// saving came to.
pub proof fn law_settings_outcome(
    c: SettingsChange,
    saved: Result<(), String>,
    r: Result<(), String>,
)
    requires
        call_ensures(SettingsChange::outcome, (c, saved), r),
    ensures
        c.problem matches Some(e) ==> r == Err::<(), String>(e),
        c.problem is None ==> r == saved,
{
}

/// A hotkey is stored where it could be registered, with the other settings as they are;
/// else the one that was stored is registered again.
pub proof fn law_hotkey(
    stored: Settings,
    hotkey: String,
    registered: Result<(), String>,
    r: HotkeyChange,
)
    requires
        call_ensures(settings::set_hotkey, (stored, hotkey, registered), r),
    ensures
        registered is Ok ==> (r matches HotkeyChange::Store(s) && s.hotkey == hotkey
            && s.close_to_tray == stored.close_to_tray && s.run_at_startup
            == stored.run_at_startup && s.explorer_menu == stored.explorer_menu),
        registered matches Err(e) ==> (r matches HotkeyChange::Restore { hotkey: h, problem }
            && h == stored.hotkey && problem == e),
{
}

/// The service is offered once, to those who start with a task and have no service.
pub proof fn law_service_offered(
    marker: Option<bool>,
    seen: bool,
    has_task: bool,
    service: Result<SvcState, String>,
    r: bool,
)
    requires
        call_ensures(settings::service_prompt_seen, (marker,), seen),
        call_ensures(settings::suggests_service, (seen, has_task, &service), r),
    ensures
        r <==> marker == Some(false) && has_task && (service matches Ok(s) && s is NotInstalled),
{
}

/// What a run with more rights came to: well only where it ended with the code 0.
pub proof fn law_elevated(outcome: Relaunch, r: Result<(), String>)
    requires
        call_ensures(elevation::run_elevated, (outcome,), r),
    ensures
        r is Ok <==> (outcome matches Relaunch::Exited { code } && code == 0),
        outcome matches Relaunch::Failed { code } ==> code == 1223 ==> (r matches Err(m) && m@
            == "elevation was declined"@),
{
}

/// The startup task runs the program hidden when someone logs on.
pub proof fn law_startup_task(exe: &str, command: String, args: Vec<String>)
    requires
        call_ensures(startup::task_command, (exe,), command),
        call_ensures(startup::create_arguments, (exe,), args),
    ensures
        command@ == seq!['"'] + exe@ + "\" --minimized"@,
        args@.len() == 8,
        args@[0]@ == "/create"@,
        args@[1]@ == "/tn"@,
        args@[2]@ == "AllTheThings"@,
        args@[3]@ == "/tr"@,
        args@[4]@ == command@,
        args@[5]@ == "/sc"@,
        args@[6]@ == "onlogon"@,
        args@[7]@ == "/f"@,
{
    reveal_strlit("\"");
    assert("\""@ =~= seq!['"']);
    let t = startup::texts(args@);
    assert(t.len() == args@.len());
    assert forall|i: int| 0 <= i < args@.len() implies t[i] == (#[trigger] args@[i])@ by {}
    assert(t[0] == args@[0]@ && t[1] == args@[1]@ && t[2] == args@[2]@ && t[3] == args@[3]@ && t[4]
        == args@[4]@ && t[5] == args@[5]@ && t[6] == args@[6]@ && t[7] == args@[7]@);
}

/// The process ends with 0 exactly where the command went well.
pub proof fn law_exit_code(result: Result<(), String>, r: i32)
    requires
        call_ensures(cli::exit_code, (&result,), r),
    ensures
        r == 0 <==> result is Ok,
{
}

/// The command that each argument stands for.
pub proof fn law_arguments(arg: &str, r: Option<AdminCommand>)
    requires
        call_ensures(AdminCommand::parse, (arg,), r),
    ensures
        r == Some(AdminCommand::SvcInstall) <==> arg@ == "--svc-install"@,
        r == Some(AdminCommand::SvcUninstall) <==> arg@ == "--svc-uninstall"@,
        r == Some(AdminCommand::SvcStart) <==> arg@ == "--svc-start"@,
        r == Some(AdminCommand::SvcStop) <==> arg@ == "--svc-stop"@,
        r == Some(AdminCommand::SvcSetup) <==> arg@ == "--svc-setup"@,
        r == Some(AdminCommand::TaskInstall) <==> arg@ == "--task-install"@,
        r == Some(AdminCommand::TaskUninstall) <==> arg@ == "--task-uninstall"@,
{
    reveal_strlit("--svc-install");
    reveal_strlit("--svc-uninstall");
    reveal_strlit("--svc-start");
    reveal_strlit("--svc-stop");
    reveal_strlit("--svc-setup");
    reveal_strlit("--task-install");
    reveal_strlit("--task-uninstall");
    assert("--svc-install"@[6] == 'i' && "--svc-uninstall"@[6] == 'u');
    assert("--svc-start"@[7] == 't' && "--svc-start"@[8] == 'a');
    assert("--svc-stop"@[7] == 't' && "--svc-stop"@[8] == 'o');
    assert("--svc-setup"@[7] == 'e' && "--task-install"@[2] == 't' && "--task-install"@[7] == 'i');
    assert("--task-uninstall"@[7] == 'u' && "--task-uninstall"@[2] == 't');
    assert("--svc-install"@[7] == 'n' && "--svc-uninstall"@[7] == 'n');
}

/// Whether a text is made of quotes and backslashes.
pub open spec fn is_tail(s: Seq<char>) -> bool {
    forall|i: int| 0 <= i < s.len() ==> #[trigger] s[i] == '"' || s[i] == '\\'
}

proof fn lemma_tail(p: Seq<char>, tail: Seq<char>)
    requires
        is_tail(tail),
        p.len() > 0,
        p.last() != '"' && p.last() != '\\',
    ensures
        cli::without_tail(p + tail) == p,
    decreases tail.len(),
{
    let s = p + tail;
    if tail.len() == 0 {
        assert(s =~= p);
    } else {
        assert(s.last() == tail[tail.len() - 1]);
        let t = tail.drop_last();
        assert forall|i: int| 0 <= i < t.len() implies #[trigger] t[i] == '"' || t[i] == '\\' by {
            assert(t[i] == tail[i]);
        }
        assert(s.drop_last() =~= p + t);
        lemma_tail(p, t);
    }
}

proof fn lemma_first(before: Seq<Seq<char>>, arg: Seq<char>, after: Seq<Seq<char>>)
    requires
        !before.contains(arg),
    ensures
        cli::first_of(before + seq![arg] + after, arg) == before.len(),
    decreases before.len(),
{
    let all = before + seq![arg] + after;
    if before.len() == 0 {
        assert(all[0] == arg);
    } else {
        let rest = before.drop_first();
        assert(before.contains(before[0]));
        assert(all[0] == before[0]);
        if rest.contains(arg) {
            let i = choose|i: int| 0 <= i < rest.len() && rest[i] == arg;
            assert(before[i + 1] == arg);
        }
        lemma_first(rest, arg, after);
        assert(all.drop_first() =~= rest + seq![arg] + after);
    }
}

/// The folder to search is the argument behind `--search-here`, without the quotes and
/// backslashes at its end.
pub proof fn law_search_here(
    before: Seq<Seq<char>>,
    p: Seq<char>,
    tail: Seq<char>,
    after: Seq<Seq<char>>,
)
    requires
        !before.contains("--search-here"@),
        is_tail(tail),
        p.len() > 0,
        p.last() != '"' && p.last() != '\\',
    ensures
        cli::search_here_of(before + seq!["--search-here"@, p + tail] + after) == Some(p),
{
    let flag = "--search-here"@;
    let all = before + seq![flag, p + tail] + after;
    assert(all =~= before + seq![flag] + (seq![p + tail] + after));
    lemma_first(before, flag, seq![p + tail] + after);
    assert(all[before.len() as int + 1] == p + tail);
    lemma_tail(p, tail);
}

/// Without the argument there is no folder to search.
pub proof fn law_no_search_here(args: Seq<Seq<char>>)
    requires
        !args.contains("--search-here"@),
    ensures
        cli::search_here_of(args) is None,
    decreases args.len(),
{
    lemma_never(args, "--search-here"@);
}

proof fn lemma_never(args: Seq<Seq<char>>, arg: Seq<char>)
    requires
        !args.contains(arg),
    ensures
        cli::first_of(args, arg) == args.len(),
    decreases args.len(),
{
    if args.len() > 0 {
        let rest = args.drop_first();
        assert(args.contains(args[0]));
        if rest.contains(arg) {
            let i = choose|i: int| 0 <= i < rest.len() && rest[i] == arg;
            assert(args[i + 1] == arg);
        }
        lemma_never(rest, arg);
    }
}

/// What the program starts as: the service wherever it is asked for; without that and
/// without the argument of a command the window, hidden where it is asked to be.
pub proof fn law_launch(args: Vec<String>, r: Launch)
    requires
        call_ensures(cli::launch, (&args,), r),
    ensures
        r is Service <==> startup::texts(args@).contains("--service"@),
        !(r is Service) && (forall|i: int|
            0 <= i < args@.len() ==> !cli::is_admin((#[trigger] args@[i])@)) ==> r is Gui,
        r matches Launch::Gui(flags) ==> (flags.start_hidden <==> startup::texts(args@).contains(
            "--minimized"@,
        )),
{
    let t = startup::texts(args@);
    if forall|i: int| 0 <= i < args@.len() ==> !cli::is_admin((#[trigger] args@[i])@) {
        assert forall|i: int| 0 <= i < t.len() implies !cli::is_admin(#[trigger] t[i]) by {
            assert(t[i] == args@[i]@);
        }
        lemma_no_admin(t);
    }
}

proof fn lemma_no_admin(args: Seq<Seq<char>>)
    requires
        forall|i: int| 0 <= i < args.len() ==> !cli::is_admin(#[trigger] args[i]),
    ensures
        cli::first_admin(args) == args.len(),
    decreases args.len(),
{
    if args.len() > 0 {
        let rest = args.drop_first();
        assert(!cli::is_admin(args[0]));
        assert forall|i: int| 0 <= i < rest.len() implies !cli::is_admin(#[trigger] rest[i]) by {
            assert(rest[i] == args[i + 1]);
        }
        lemma_no_admin(rest);
    }
}

} // verus!
