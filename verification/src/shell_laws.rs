//! Laws of file operations, of the shell and of the drives.

use crate::content;
use crate::error::IndexError;
use crate::fileops;
use crate::fileops::{RenameAction, ShellVerb};
use crate::hotkey;
use crate::shellmenu;
use crate::shellmenu::VerbStep;
use crate::status::IndexStatus;
use crate::text;
use crate::volumes;
use crate::volumes::{DriveFacts, Fill, FillStep};
use crate::wide;
use crate::window;
use crate::window::TrayAction;
use vstd::prelude::*;

verus! {

/// Whether a file can have a name: it has characters, is not one or two dots, and has none
/// of the nine characters that paths and patterns are made of.
pub open spec fn can_be_name(s: Seq<char>) -> bool {
    &&& s.len() > 0
    &&& s != seq!['.'] && s != seq!['.', '.']
    &&& !s.contains('\\') && !s.contains('/') && !s.contains(':')
    &&& !s.contains('*') && !s.contains('?') && !s.contains('"')
    &&& !s.contains('<') && !s.contains('>') && !s.contains('|')
}

/// A new name is taken without the white space around it, exactly where a file can have it.
pub proof fn law_new_name(given: &str, r: Result<String, String>)
    requires
        call_ensures(fileops::new_name, (given,), r),
    ensures
        r is Ok <==> can_be_name(text::trimmed(given@)),
        r matches Ok(name) ==> name@ == text::trimmed(given@),
        text::trimmed(given@).len() == 0 ==> (r matches Err(m) && m@ == "Name cannot be empty"@),
{
    let s = text::trimmed(given@);
    reveal_strlit(".");
    reveal_strlit("..");
    assert("."@ =~= seq!['.'] && ".."@ =~= seq!['.', '.']);
    if exists|i: int| 0 <= i < s.len() && fileops::is_forbidden(#[trigger] s[i]) {
        let i = choose|i: int| 0 <= i < s.len() && fileops::is_forbidden(#[trigger] s[i]);
        assert(s.contains(s[i]));
    } else {
        assert forall|c: char| fileops::is_forbidden(c) implies !#[trigger] s.contains(c) by {
            if s.contains(c) {
                let i = choose|i: int| 0 <= i < s.len() && s[i] == c;
                assert(fileops::is_forbidden(s[i]));
            }
        }
    }
}

/// A rename never puts an item over another one: it moves to a name that is free, or that
/// the item itself has in another letter case.
pub proof fn law_rename(same_path: bool, exists: bool, same_file: bool, r: RenameAction)
    requires
        call_ensures(fileops::rename_action, (same_path, exists, same_file), r),
    ensures
        r is Keep <==> same_path,
        r is Refuse <==> !same_path && exists && !same_file,
        r matches RenameAction::Move { replace } ==> (replace <==> exists) && (replace
            ==> same_file),
{
}

/// A delete went well where the system says 0 and nobody stopped it.
pub proof fn law_recycled(code: i32, aborted: bool, r: Result<(), String>)
    requires
        call_ensures(fileops::recycled, (code, aborted), r),
    ensures
        r is Ok <==> code == 0 && !aborted,
        code == 0 && aborted ==> (r matches Err(m) && m@ == "delete was cancelled"@),
{
}

/// The verb of the shell that each action stands for.
pub proof fn law_shell_verbs(action: &str, r: Result<ShellVerb, String>, verb: &'static str)
    requires
        call_ensures(fileops::shell_action, (action,), r),
        r matches Ok(v) ==> call_ensures(ShellVerb::verb, (v,), verb),
    ensures
        action@ == "properties"@ ==> r is Ok && verb@ == "properties"@,
        action@ == "open_with"@ ==> r is Ok && verb@ == "openas"@,
        action@ == "run_as"@ ==> r is Ok && verb@ == "runas"@,
        r is Ok ==> action@ == "properties"@ || action@ == "open_with"@ || action@ == "run_as"@,
{
    reveal_strlit("properties");
    reveal_strlit("open_with");
    reveal_strlit("run_as");
    assert("properties"@[0] == 'p' && "open_with"@[0] == 'o' && "run_as"@[0] == 'r');
}

/// A verb that someone declined is no failure; any other failure is one.
pub proof fn law_shell_outcome(verb: ShellVerb, failure: Option<u32>, r: Result<(), String>)
    requires
        call_ensures(fileops::shell_verb, (verb, failure), r),
    ensures
        r is Ok <==> failure is None || failure == Some(1223u32),
{
}

/// A path is shown in Explorer in quotes, and not at all where it could end them: with a
/// quote or a control character in it.
pub proof fn law_reveal(path: &str, r: Result<String, String>)
    requires
        call_ensures(fileops::reveal_argument, (path,), r),
    ensures
        r matches Ok(a) ==> a@ == "/select,"@ + seq!['"'] + path@ + seq!['"'],
        r is Err <==> path@.contains('"') || exists|i: int|
            0 <= i < path@.len() && ((#[trigger] path@[i] as u32) < 32 || 127 <= path@[i] as u32
                <= 159),
{
    let p = path@;
    reveal_strlit("/select,\"");
    reveal_strlit("/select,");
    reveal_strlit("\"");
    assert("\""@ =~= seq!['"']);
    assert("/select,\""@ =~= "/select,"@ + seq!['"']);
    if fileops::is_quotable(p) {
        if p.contains('"') {
            let i = choose|i: int| 0 <= i < p.len() && p[i] == '"';
            assert(p[i] != '"');
        }
    } else {
        let i = choose|i: int|
            0 <= i < p.len() && !((#[trigger] p[i]) != '"' && !fileops::is_control(p[i]));
        assert(p.contains(p[i]));
    }
}

/// The menu entry counts as there where both of its verbs are.
pub proof fn law_menu_registered(directory: bool, background: bool, r: bool)
    requires
        call_ensures(shellmenu::is_registered, (directory, background), r),
    ensures
        r <==> directory && background,
{
}

/// Removing the menu entry reports the first problem of the two verbs.
pub proof fn law_menu_removed(
    directory: Result<(), String>,
    background: Result<(), String>,
    r: Result<(), String>,
)
    requires
        call_ensures(shellmenu::unregister, (directory, background), r),
    ensures
        r is Ok <==> directory is Ok && background is Ok,
        directory is Err ==> r == directory,
        directory is Ok ==> r == background,
{
}

/// A key that is not there is as good as deleted.
pub proof fn law_key_codes(
    subkey: &str,
    code: u32,
    created: Result<(), String>,
    set: Result<(), String>,
    deleted: Result<(), String>,
)
    requires
        call_ensures(shellmenu::created, (subkey, code), created),
        call_ensures(shellmenu::value_set, (code,), set),
        call_ensures(shellmenu::deleted, (subkey, code), deleted),
    ensures
        created is Ok <==> code == 0,
        set is Ok <==> code == 0,
        deleted is Ok <==> code == 0 || code == 2,
{
}

/// A verb is written in four steps, its base, its label and icon, its command key and its
/// command; the first problem rolls it back and is what is reported, and without one it is
/// done.
pub proof fn law_verb_written(step: VerbStep, outcome: Result<(), String>, r: VerbStep)
    requires
        call_ensures(shellmenu::write_verb, (step, outcome), r),
    ensures
        step is CreateBase ==> if outcome is Ok {
            r is SetLabel
        } else {
            r is RollBack
        },
        step is SetLabel ==> r is SetIcon && r->label == outcome,
        step is SetIcon ==> (r is CreateCommand <==> step->label is Ok && outcome is Ok),
        step is CreateCommand ==> if outcome is Ok {
            r is SetCommand
        } else {
            r is RollBack
        },
        step is SetCommand ==> if outcome is Ok {
            r == VerbStep::Done(Ok(()))
        } else {
            r is RollBack
        },
        r matches VerbStep::RollBack { problem } ==> if step is SetIcon && step->label is Err {
            step->label == Err::<(), String>(problem)
        } else {
            outcome == Err::<(), String>(problem)
        },
        step matches VerbStep::RollBack { problem } ==> r == VerbStep::Done(Err(problem)),
{
}

/// The command of a verb runs the program with the folder to search.
pub proof fn law_verb_command(exe: &str, placeholder: &str, r: String)
    requires
        call_ensures(shellmenu::verb_command, (exe, placeholder), r),
    ensures
        r@ == seq!['"'] + exe@ + seq!['"', ' '] + "--search-here"@ + seq![' ', '"'] + placeholder@
            + seq!['"'],
{
    reveal_strlit("\"");
    reveal_strlit("\" --search-here \"");
    reveal_strlit("--search-here");
    assert("\""@ =~= seq!['"']);
    assert("\" --search-here \""@ =~= seq!['"', ' '] + "--search-here"@ + seq![' ', '"']);
    assert(r@ =~= seq!['"'] + exe@ + seq!['"', ' '] + "--search-here"@ + seq![' ', '"']
        + placeholder@ + seq!['"']);
}

/// The drive letters of a mask are those of its lowest twenty-six bits that are set, in
/// their order.
pub proof fn law_drive_letters(mask: u32, n: int, k: int)
    requires
        0 <= n <= 26,
        0 <= k < 26,
    ensures
        volumes::letters_below(mask, n).contains(('A' as int + k) as char) <==> k < n && (mask >> (
        k as u32)) & 1 == 1,
        forall|i: int, j: int|
            0 <= i < j < volumes::letters_below(mask, n).len() ==> volumes::letters_below(
                mask,
                n,
            )[i] < volumes::letters_below(mask, n)[j],
        forall|i: int|
            0 <= i < volumes::letters_below(mask, n).len() ==> 'A' <= #[trigger]
                volumes::letters_below(mask, n)[i] && (volumes::letters_below(mask, n)[i] as int)
                < 'A' as int + n,
    decreases n,
{
    let c = ('A' as int + k) as char;
    let all = volumes::letters_below(mask, n);
    if n > 0 {
        law_drive_letters(mask, n - 1, k);
        let front = volumes::letters_below(mask, n - 1);
        let last = volumes::letter_of(n - 1);
        assert(last as int == 'A' as int + n - 1);
        assert(c as int == 'A' as int + k);
        if volumes::in_mask(mask, (n - 1) as u32) {
            assert(all == front.push(last));
            if all.contains(c) {
                let i = choose|i: int| 0 <= i < all.len() && all[i] == c;
                if i < front.len() {
                    assert(front[i] == c);
                    assert(front.contains(c));
                }
            }
            if front.contains(c) {
                let i = choose|i: int| 0 <= i < front.len() && front[i] == c;
                assert(all[i] == c);
            }
            if k == n - 1 {
                assert(all[front.len() as int] == c);
            }
        }
    }
}

/// A drive is indexed where it is a fixed one whose file system calls itself NTFS, in any
/// letter case and with any zeros behind.
pub proof fn law_indexed(kind: u32, name: Seq<char>, zeros: nat, units: Vec<u16>)
    requires
        name.len() > 0 ==> name.last() != '\0',
        units@ == wide::utf16_of(name + Seq::new(zeros, |i: int| '\0')),
    ensures
        volumes::is_indexed(DriveFacts { kind, file_system: Some(units) }) <==> kind == 3
            && text::ascii_lowered(name) == seq!['n', 't', 'f', 's'],
        !volumes::is_indexed(DriveFacts { kind, file_system: None }),
{
    let all = name + Seq::new(zeros, |i: int| '\0');
    wide::law_utf16_round_trip(all);
    lemma_without_nuls(name, zeros);
    reveal_strlit("NTFS");
    assert(text::ascii_lowered("NTFS"@) =~= seq!['n', 't', 'f', 's']);
}

proof fn lemma_without_nuls(name: Seq<char>, zeros: nat)
    requires
        name.len() > 0 ==> name.last() != '\0',
    ensures
        volumes::without_nuls(name + Seq::new(zeros, |i: int| '\0')) == name,
    decreases zeros,
{
    let all = name + Seq::new(zeros, |i: int| '\0');
    if zeros == 0 {
        assert(all =~= name);
    } else {
        let fewer = (zeros - 1) as nat;
        assert(all.last() == '\0');
        assert(all.drop_last() =~= name + Seq::new(fewer, |i: int| '\0'));
        lemma_without_nuls(name, fewer);
    }
}

/// The drives that are indexed are found one by one, in their order.
pub proof fn law_indexed_drives(a: Seq<(char, DriveFacts)>, b: Seq<(char, DriveFacts)>)
    ensures
        volumes::indexed_drives(a + b) == volumes::indexed_drives(a) + volumes::indexed_drives(b),
        a.len() == 1 ==> volumes::indexed_drives(a) == if volumes::is_indexed(a[0].1) {
            seq![a[0].0]
        } else {
            Seq::empty()
        },
    decreases b.len(),
{
    if b.len() == 0 {
        assert(a + b =~= a);
        assert(volumes::indexed_drives(a) + volumes::indexed_drives(b) =~= volumes::indexed_drives(
            a,
        ));
    } else {
        law_indexed_drives(a, b.drop_last());
        assert((a + b).drop_last() =~= a + b.drop_last());
        assert((a + b).last() == b.last());
        assert(volumes::indexed_drives(a + b) =~= volumes::indexed_drives(a)
            + volumes::indexed_drives(b));
    }
    if a.len() == 1 {
        assert(a.drop_last() =~= Seq::empty());
        assert(volumes::indexed_drives(a.drop_last()) =~= Seq::empty());
        assert(a.last() == a[0]);
    }
}

/// The paths of a drive: its root, and the drive itself as a device.
pub proof fn law_drive_paths(drive: char, root: String, device: String)
    requires
        call_ensures(volumes::root_path, (drive,), root),
        call_ensures(volumes::device_path, (drive,), device),
    ensures
        root@ == seq![drive, ':', '\\'],
        device@ == seq!['\\', '\\', '.', '\\', drive, ':'],
{
    reveal_strlit("\\\\.\\");
    assert("\\\\.\\"@ =~= seq!['\\', '\\', '.', '\\']);
    assert(device@ =~= seq!['\\', '\\', '.', '\\', drive, ':']);
}

/// A drive that cannot be opened for want of rights says so; another failure keeps its
/// code.
pub proof fn law_open_error(drive: char, code: u32, r: IndexError)
    requires
        call_ensures(volumes::open_error, (drive, code), r),
    ensures
        code == 5 <==> r is AccessDenied,
        code != 5 ==> (r matches IndexError::Open { code: c, .. } && c == code),
{
}

/// A buffer is read on as long as bytes are missing, and for no more than these.
pub proof fn law_fill(f: Fill, r: FillStep)
    requires
        f.wf(),
        call_ensures(Fill::step, (&f,), r),
    ensures
        r is Full <==> f.filled == f.len,
        r matches FillStep::Read { want } ==> 0 < want <= f.len - f.filled,
        r matches FillStep::Read { want } ==> f.len - f.filled <= 0xFFFF_FFFF ==> want == f.len
            - f.filled,
        !(r is Ended),
{
}

/// A character is one unit that is its number, or two: one from 0xD800 and one from 0xDC00
/// on, which hold the upper and the lower ten bits of what it exceeds 0x10000 by.
pub proof fn law_units(c: char)
    ensures
        (c as int) < 0x10000 ==> wide::units_of(c) == seq![c as u16],
        c as int >= 0x10000 ==> {
            let u = wide::units_of(c);
            &&& u.len() == 2
            &&& 0xD800 <= u[0] < 0xDC00
            &&& 0xDC00 <= u[1] < 0xE000
            &&& c as int == 0x10000 + (u[0] - 0xD800) * 0x400 + (u[1] - 0xDC00)
        },
{
}

/// A text for the system ends with a zero, and a list of paths with two.
pub proof fn law_wide(s: &str, one: Vec<u16>, list: Vec<u16>)
    requires
        call_ensures(wide::wide, (s,), one),
        call_ensures(wide::wide_list, (s,), list),
    ensures
        one@.last() == 0,
        content::utf16_text(one@.drop_last()) == s@,
        list@ == one@.push(0),
{
    wide::law_utf16_round_trip(s@);
    assert(one@.drop_last() =~= wide::utf16_of(s@));
}

/// The hotkey hides the window exactly where it is in view and has the focus.
pub proof fn law_hides(visible: bool, focused: bool, r: bool)
    requires
        call_ensures(window::hides, (visible, focused), r),
    ensures
        r <==> visible && focused,
{
}

/// What the entries of the tray menu do.
pub proof fn law_tray(id: &str, r: TrayAction)
    requires
        call_ensures(window::tray_action, (id,), r),
    ensures
        r is Show <==> id@ == "show"@,
        r is Settings <==> id@ == "settings"@,
        r is Quit <==> id@ == "quit"@,
{
    reveal_strlit("show");
    reveal_strlit("settings");
    reveal_strlit("quit");
    assert("show"@[1] == 'h' && "settings"@[1] == 'e' && "quit"@[1] == 'u');
}

/// A hotkey is what was typed without the white space around it; blank is none.
pub proof fn law_accelerator(accel: &str, r: Option<String>)
    requires
        call_ensures(hotkey::accelerator, (accel,), r),
    ensures
        r is None <==> text::trimmed(accel@) == Seq::<char>::empty(),
        r matches Some(a) ==> a@ == text::trimmed(accel@),
{
    if text::trimmed(accel@).len() == 0 {
        assert(text::trimmed(accel@) =~= Seq::empty());
    }
}

/// The words that a status says for each state.
pub proof fn law_status_words(
    volume: String,
    count: usize,
    message: String,
    busy: IndexStatus,
    ready: IndexStatus,
    failed: IndexStatus,
)
    requires
        call_ensures(IndexStatus::indexing, (volume, count), busy),
        call_ensures(IndexStatus::ready, (volume, count), ready),
        call_ensures(IndexStatus::error, (volume, message), failed),
    ensures
        busy.state@ == "indexing"@ && busy.count == count && busy.volume@ == volume@,
        ready.state@ == "ready"@ && ready.count == count && ready.volume@ == volume@,
        failed.state@ == "error"@ && failed.volume@ == volume@ && failed.message@ == message@,
        busy.message@.len() == 0 && ready.message@.len() == 0,
{
}

} // verus!
