//! User settings: their defaults, how the toggles that stand for the state of the
//! system follow that state, and what a change of them does.

use crate::scm::SvcState;
use vstd::prelude::*;

verus! {

/// The settings that are kept between runs.
#[derive(Debug)]
pub struct Settings {
    /// Closing the window hides it to the tray instead of quitting.
    pub close_to_tray: bool,
    /// Whether the logon scheduled task is registered. Reconciled against the real
    /// task on read.
    pub run_at_startup: bool,
    /// Whether the Explorer "Search here" context-menu entry is registered.
    /// Reconciled against the real registry key on read.
    pub explorer_menu: bool,
    /// Global hotkey accelerator that summons the window (e.g. `"Ctrl+Alt+Space"`);
    /// an empty string disables it. Owned by [`set_hotkey`].
    pub hotkey: String,
}

impl Default for Settings {
    fn default() -> (r: Self)
        ensures
            r.close_to_tray,
            !r.run_at_startup,
            !r.explorer_menu,
            r.hotkey@ == "Ctrl+Alt+Space"@,
    {
        Settings {
            close_to_tray: true,
            run_at_startup: false,
            explorer_menu: false,
            hotkey: "Ctrl+Alt+Space".to_string(),
        }
    }
}

impl Clone for Settings {
    fn clone(&self) -> (r: Self)
        ensures
            r == *self,
    {
        Settings {
            close_to_tray: self.close_to_tray,
            run_at_startup: self.run_at_startup,
            explorer_menu: self.explorer_menu,
            hotkey: self.hotkey.clone(),
        }
    }
}

/// Launch flags derived from the command line (not persisted).
#[derive(Debug)]
pub struct StartFlags {
    pub start_hidden: bool,
    /// A folder passed via `--search-here` (the Explorer context menu) for the first
    /// instance to scope its initial search to.
    pub search_here: Option<String>,
}

/// Whether the service-migration prompt has already been shown, given whether its
/// marker exists, or `None` when that can't be tracked, in which case we don't nag.
pub fn service_prompt_seen(marker: Option<bool>) -> (r: bool)
    ensures
        r == (marker != Some(false)),
{
    match marker {
        Some(exists) => exists,
        None => true,
    }
}

/// Whether to suggest the service: once, to an install that still relies on the logon
/// task and has no service.
pub fn suggests_service(prompt_seen: bool, has_task: bool, service: &Result<SvcState, String>) -> (r:
    bool)
    ensures
        r == (!prompt_seen && has_task && *service == Ok::<SvcState, String>(
            SvcState::NotInstalled,
        )),
{
    if prompt_seen || !has_task {
        return false;
    }
    match service {
        Ok(SvcState::NotInstalled) => true,
        _ => false,
    }
}

impl Settings {
    /// The settings with the toggles that stand for the state of the system set to
    /// that state.
    pub fn reconciled(self, task_exists: bool, menu_registered: bool) -> (r: Self)
        ensures
            r == (Settings {
                run_at_startup: task_exists,
                explorer_menu: menu_registered,
                ..self
            }),
    {
        Settings {
            close_to_tray: self.close_to_tray,
            run_at_startup: task_exists,
            explorer_menu: menu_registered,
            hotkey: self.hotkey,
        }
    }
}

/// What a change of the settings does about the logon task.
#[derive(Debug, Clone, Copy, PartialEq, Eq, Structural)]
pub enum TaskAction {
    /// The task already is as wanted.
    Keep,
    /// Register or remove the task in this process.
    Apply { enable: bool },
    /// Relaunch elevated to register or remove the task.
    Relaunch { enable: bool },
}

/// What brings the logon task to what is wanted.
pub open spec fn task_action_of(wanted: bool, exists: bool, elevated: bool) -> TaskAction {
    if wanted == exists {
        TaskAction::Keep
    } else if elevated {
        TaskAction::Apply { enable: wanted }
    } else {
        TaskAction::Relaunch { enable: wanted }
    }
}

/// What a change of the settings does about the Explorer menu.
#[derive(Debug, Clone, Copy, PartialEq, Eq, Structural)]
pub enum MenuAction {
    Keep,
    Register,
    Unregister,
}

/// A change of the settings under way: the wanted settings, and the first problem met
/// on the way. A problem never ends the change: what could be done is still
/// reconciled and kept.
#[derive(Debug)]
pub struct SettingsChange {
    pub wanted: Settings,
    pub problem: Option<String>,
}

/// The first of two problems.
pub open spec fn first_problem(a: Option<String>, b: Result<(), String>) -> Option<String> {
    match (a, b) {
        (None, Err(e)) => Some(e),
        _ => a,
    }
}

impl SettingsChange {
    /// Begin a change to these settings.
    pub fn new(wanted: Settings) -> (r: Self)
        ensures
            r.wanted == wanted,
            r.problem is None,
    {
        SettingsChange { wanted, problem: None }
    }

    /// What to do about the logon task, given whether it exists and whether this
    /// process is elevated: only touch it when the toggle actually changed, and
    /// relaunch elevated when this process isn't.
    pub fn task_action(&self, exists: bool, elevated: bool) -> (r: TaskAction)
        ensures
            r == task_action_of(self.wanted.run_at_startup, exists, elevated),
    {
        if self.wanted.run_at_startup == exists {
            TaskAction::Keep
        } else if elevated {
            TaskAction::Apply { enable: self.wanted.run_at_startup }
        } else {
            TaskAction::Relaunch { enable: self.wanted.run_at_startup }
        }
    }

    /// What to do about the Explorer menu, given whether it is registered.
    pub fn menu_action(&self, registered: bool) -> (r: MenuAction)
        ensures
            r == if self.wanted.explorer_menu == registered {
                MenuAction::Keep
            } else if self.wanted.explorer_menu {
                MenuAction::Register
            } else {
                MenuAction::Unregister
            },
    {
        if self.wanted.explorer_menu == registered {
            MenuAction::Keep
        } else if self.wanted.explorer_menu {
            MenuAction::Register
        } else {
            MenuAction::Unregister
        }
    }

    /// Note the outcome of an action. The first problem stays.
    pub fn done(&mut self, outcome: Result<(), String>)
        ensures
            final(self).wanted == old(self).wanted,
            final(self).problem == first_problem(old(self).problem, outcome),
    {
        if self.problem.is_none() {
            if let Err(e) = outcome {
                self.problem = Some(e);
            }
        }
    }

    /// The settings to store and keep: the wanted ones, with the toggles that stand
    /// for the state of the system set to that state and the hotkey as it is stored.
    pub fn settled(&self, task_exists: bool, menu_registered: bool, stored: &Settings) -> (r:
        Settings)
        ensures
            r == (Settings {
                close_to_tray: self.wanted.close_to_tray,
                run_at_startup: task_exists,
                explorer_menu: menu_registered,
                hotkey: stored.hotkey,
            }),
    {
        Settings {
            close_to_tray: self.wanted.close_to_tray,
            run_at_startup: task_exists,
            explorer_menu: menu_registered,
            hotkey: stored.hotkey.clone(),
        }
    }

    /// How the change ended: the first problem, or else how saving it went.
    pub fn outcome(self, saved: Result<(), String>) -> (r: Result<(), String>)
        ensures
            r == match self.problem {
                Some(e) => Err(e),
                None => saved,
            },
    {
        match self.problem {
            Some(e) => Err(e),
            None => saved,
        }
    }
}

/// What follows an attempt to register a new hotkey.
#[derive(Debug)]
pub enum HotkeyChange {
    /// It is registered: store and save these settings.
    Store(Settings),
    /// It was rejected: register the previous one again, and report the problem.
    Restore { hotkey: String, problem: String },
}

/// What follows an attempt to register `hotkey`.
pub open spec fn hotkey_change(
    stored: Settings,
    hotkey: String,
    registered: Result<(), String>,
) -> HotkeyChange {
    match registered {
        Ok(_) => HotkeyChange::Store(Settings { hotkey, ..stored }),
        Err(problem) => HotkeyChange::Restore { hotkey: stored.hotkey, problem },
    }
}

/// Set the global summon hotkey, given how registering it went. On failure the
/// previously registered one is restored, so a rejected change never leaves the app
/// without a working hotkey.
pub fn set_hotkey(stored: Settings, hotkey: String, registered: Result<(), String>) -> (r:
    HotkeyChange)
    ensures
        r == hotkey_change(stored, hotkey, registered),
{
    match registered {
        Ok(_) => HotkeyChange::Store(
            Settings {
                close_to_tray: stored.close_to_tray,
                run_at_startup: stored.run_at_startup,
                explorer_menu: stored.explorer_menu,
                hotkey,
            },
        ),
        Err(problem) => HotkeyChange::Restore { hotkey: stored.hotkey, problem },
    }
}

} // verus!
