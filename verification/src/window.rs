//! What the window and the tray icon do.

use crate::text::{chars_of, is_text};
use vstd::prelude::*;

verus! {

/// Whether the hotkey hides the window: when it is the focused foreground window. It is
/// brought forward otherwise.
pub fn hides(visible: bool, focused: bool) -> (r: bool)
    ensures
        r == (visible && focused),
{
    visible && focused
}

/// What an item of the tray menu does.
#[derive(Debug, Clone, Copy, PartialEq, Eq, Structural)]
pub enum TrayAction {
    Show,
    /// Show the window, and open its settings.
    Settings,
    Quit,
    Ignore,
}

/// What the item of the tray menu with this id does.
pub fn tray_action(id: &str) -> (r: TrayAction)
    ensures
        r == if id@ == "show"@ {
            TrayAction::Show
        } else if id@ == "settings"@ {
            TrayAction::Settings
        } else if id@ == "quit"@ {
            TrayAction::Quit
        } else {
            TrayAction::Ignore
        },
{
    let chars = chars_of(id);
    if is_text(chars.as_slice(), "show") {
        TrayAction::Show
    } else if is_text(chars.as_slice(), "settings") {
        TrayAction::Settings
    } else if is_text(chars.as_slice(), "quit") {
        TrayAction::Quit
    } else {
        TrayAction::Ignore
    }
}

} // verus!
