//! File actions of the results menu: which names and actions are accepted, and what
//! the outcomes of renaming, recycling and the shell verbs mean.

use crate::text;
use crate::text::{around, around_number, chars_of, contains_char, is_text, string_of, trim};
use vstd::prelude::*;
use vstd::string::*;

verus! {

/// Whether Windows forbids a character in a file name.
pub open spec fn is_forbidden(c: char) -> bool {
    c == '\\' || c == '/' || c == ':' || c == '*' || c == '?' || c == '"' || c == '<' || c == '>' || c
        == '|'
}

/// What a new name is refused with, if it is: an empty one, or one that no file can
/// have.
pub open spec fn name_problem(name: Seq<char>) -> Option<Seq<char>> {
    if name.len() == 0 {
        Some("Name cannot be empty"@)
    } else if name == "."@ || name == ".."@ || exists|i: int|
        0 <= i < name.len() && is_forbidden(#[trigger] name[i]) {
        Some("Name contains invalid characters"@)
    } else {
        None
    }
}

/// The name that an item is renamed to: the given one without the whitespace around
/// it, when a file can have it.
pub fn new_name(given: &str) -> (r: Result<String, String>)
    ensures
        match r {
            Ok(name) => name@ == text::trimmed(given@) && name_problem(name@) is None,
            Err(message) => name_problem(text::trimmed(given@)) == Some(message@),
        },
{
    let chars = chars_of(given);
    let name = trim(chars.as_slice());
    if name.len() == 0 {
        return Err("Name cannot be empty".to_string());
    }
    let mut forbidden = is_text(name.as_slice(), ".") || is_text(name.as_slice(), "..");
    let mut i: usize = 0;
    while i < name.len()
        invariant
            i <= name@.len(),
            forbidden == (name@ == "."@ || name@ == ".."@ || exists|k: int|
                0 <= k < i && is_forbidden(#[trigger] name@[k])),
        decreases name@.len() - i,
    {
        let c = name[i];
        if c == '\\' || c == '/' || c == ':' || c == '*' || c == '?' || c == '"' || c == '<' || c
            == '>' || c == '|' {
            assert(is_forbidden(name@[i as int]));
            forbidden = true;
        }
        i += 1;
    }
    if forbidden {
        return Err("Name contains invalid characters".to_string());
    }
    Ok(string_of(name.as_slice()))
}

/// What a rename does.
#[derive(Debug, Clone, Copy, PartialEq, Eq, Structural)]
pub enum RenameAction {
    /// The item already has the name.
    Keep,
    /// Another item has the name: refuse to overwrite it.
    Refuse,
    /// Move the item, over itself when only the letter case changes. Without that the
    /// move fails when an item of the name has appeared in the meantime.
    Move { replace: bool },
}

/// What a rename does.
pub open spec fn rename_action_of(same_path: bool, exists: bool, same_file: bool) -> RenameAction {
    if same_path {
        RenameAction::Keep
    } else if exists && !same_file {
        RenameAction::Refuse
    } else {
        RenameAction::Move { replace: exists }
    }
}

/// What a rename does, given whether the new path is the old one, whether an item
/// exists there, and whether that is the renamed item itself: on case-insensitive
/// volumes it is when only the letter case changes.
pub fn rename_action(same_path: bool, exists: bool, same_file: bool) -> (r: RenameAction)
    ensures
        r == rename_action_of(same_path, exists, same_file),
{
    if same_path {
        return RenameAction::Keep;
    }
    let case_only = exists && same_file;
    if exists && !case_only {
        return RenameAction::Refuse;
    }
    RenameAction::Move { replace: case_only }
}

/// A rename never replaces an item other than the renamed one.
pub proof fn law_rename_keeps(same_path: bool, exists: bool, same_file: bool)
    ensures
        rename_action_of(same_path, exists, same_file) == (RenameAction::Move { replace: true })
            ==> same_file,
        exists && !same_file && !same_path ==> rename_action_of(same_path, exists, same_file)
            == RenameAction::Refuse,
{
}

/// What the user is told of a name that is taken.
pub fn name_taken(name: &str) -> (r: String)
    ensures
        r@ == "\""@ + name@ + "\" already exists"@,
{
    around("\"", name, "\" already exists")
}

/// What the user is told of a move that failed.
pub fn move_failed(code: u32) -> (r: String)
    ensures
        r@ == "rename failed (code "@ + text::decimal(code as nat) + ")"@,
{
    around_number("rename failed (code ", code as u64, ")")
}

/// What a deletion to the Recycle Bin came to, given its code and whether it was
/// cut short.
pub fn recycled(code: i32, aborted: bool) -> (r: Result<(), String>)
    ensures
        match r {
            Ok(_) => code == 0 && !aborted,
            Err(message) => message@ == if code != 0 {
                "delete failed (code "@ + text::signed_decimal(code as int) + ")"@
            } else {
                "delete was cancelled"@
            } && (code != 0 || aborted),
        },
{
    if code != 0 {
        let mut out = String::new();
        out.append("delete failed (code ");
        text::push_signed(&mut out, code);
        out.append(")");
        assert(out@ =~= "delete failed (code "@ + text::signed_decimal(code as int) + ")"@);
        return Err(out);
    }
    if aborted {
        return Err("delete was cancelled".to_string());
    }
    Ok(())
}

/// A shell verb the context menu can invoke.
#[derive(Debug, Clone, Copy, PartialEq, Eq, Structural)]
pub enum ShellVerb {
    Properties,
    OpenWith,
    RunAsAdmin,
}

/// The verb of this action.
pub open spec fn verb_of(action: Seq<char>) -> Option<ShellVerb> {
    if action == "properties"@ {
        Some(ShellVerb::Properties)
    } else if action == "open_with"@ {
        Some(ShellVerb::OpenWith)
    } else if action == "run_as"@ {
        Some(ShellVerb::RunAsAdmin)
    } else {
        None
    }
}

impl ShellVerb {
    /// Parse the UI's action name into a verb, rejecting anything unknown.
    pub fn parse(action: &str) -> (r: Option<Self>)
        ensures
            r == verb_of(action@),
    {
        let chars = chars_of(action);
        if is_text(chars.as_slice(), "properties") {
            Some(ShellVerb::Properties)
        } else if is_text(chars.as_slice(), "open_with") {
            Some(ShellVerb::OpenWith)
        } else if is_text(chars.as_slice(), "run_as") {
            Some(ShellVerb::RunAsAdmin)
        } else {
            None
        }
    }

    /// What the shell calls the verb.
    pub open spec fn shell_name(self) -> Seq<char> {
        match self {
            ShellVerb::Properties => "properties"@,
            ShellVerb::OpenWith => "openas"@,
            ShellVerb::RunAsAdmin => "runas"@,
        }
    }

    /// What the shell calls the verb.
    pub fn verb(self) -> (r: &'static str)
        ensures
            r@ == self.shell_name(),
    {
        match self {
            ShellVerb::Properties => "properties",
            ShellVerb::OpenWith => "openas",
            ShellVerb::RunAsAdmin => "runas",
        }
    }
}

/// The verb of the UI's action, or what the user is told of an unknown one.
pub fn shell_action(action: &str) -> (r: Result<ShellVerb, String>)
    ensures
        match r {
            Ok(verb) => verb_of(action@) == Some(verb),
            Err(message) => verb_of(action@) is None && message@ == "unknown action '"@ + action@
                + "'"@,
        },
{
    match ShellVerb::parse(action) {
        Some(verb) => Ok(verb),
        None => Err(around("unknown action '", action, "'")),
    }
}

/// The code of a dialog that the user dismissed.
pub const ERROR_CANCELLED: u32 = 1223;

/// What a shell verb came to, given the code of its failure if it failed. A user
/// dismissing the dialog is success.
pub fn shell_verb(verb: ShellVerb, failure: Option<u32>) -> (r: Result<(), String>)
    ensures
        match r {
            Ok(_) => failure is None || failure == Some(ERROR_CANCELLED),
            Err(message) => failure is Some && failure != Some(ERROR_CANCELLED) && message@
                == "shell action '"@ + verb.shell_name() + "' failed"@,
        },
{
    match failure {
        None => Ok(()),
        Some(code) => {
            if code == ERROR_CANCELLED {
                Ok(())
            } else {
                Err(around("shell action '", verb.verb(), "' failed"))
            }
        },
    }
}

/// Whether a character is a control character.
pub open spec fn is_control(c: char) -> bool {
    let u = c as u32;
    u < 0x20 || 0x7F <= u <= 0x9F
}

/// Whether a path can stand in Explorer's quoted argument: it holds no quote and no
/// control character that could break out of the quoting.
pub open spec fn is_quotable(path: Seq<char>) -> bool {
    forall|i: int| 0 <= i < path.len() ==> (#[trigger] path[i]) != '"' && !is_control(path[i])
}

/// Explorer's argument that opens a window with the item selected.
pub fn reveal_argument(path: &str) -> (r: Result<String, String>)
    ensures
        match r {
            Ok(argument) => is_quotable(path@) && argument@ == "/select,\""@ + path@ + "\""@,
            Err(message) => !is_quotable(path@) && message@ == "invalid path"@,
        },
{
    let chars = chars_of(path);
    if contains_char(chars.as_slice(), '"') {
        assert(exists|i: int| 0 <= i < path@.len() && path@[i] == '"');
        return Err("invalid path".to_string());
    }
    let mut i: usize = 0;
    while i < chars.len()
        invariant
            i <= chars@.len(),
            chars@ == path@,
            forall|k: int| 0 <= k < chars@.len() ==> chars@[k] != '"',
            forall|k: int| 0 <= k < i ==> !is_control(#[trigger] chars@[k]),
        decreases chars@.len() - i,
    {
        let u: u32 = chars[i] as u32;
        if u < 0x20 || (0x7F <= u && u <= 0x9F) {
            assert(is_control(path@[i as int]));
            return Err("invalid path".to_string());
        }
        i += 1;
    }
    Ok(around("/select,\"", path, "\""))
}

} // verus!
