//! The user-configurable global hotkey that summons (toggles) the main window from
//! anywhere.

use crate::text;
use crate::text::{around, chars_of, string_of, trim};
use vstd::prelude::*;
use vstd::string::*;

verus! {

/// The accelerator to register; none when it is blank, which disables the hotkey.
pub fn accelerator(accel: &str) -> (r: Option<String>)
    ensures
        r is Some <==> text::trimmed(accel@).len() > 0,
        r matches Some(a) ==> a@ == text::trimmed(accel@),
{
    let chars = chars_of(accel);
    let kept = trim(chars.as_slice());
    if kept.len() == 0 {
        return None;
    }
    Some(string_of(kept.as_slice()))
}

/// What the user is told of an accelerator that is invalid or that the system rejects.
pub fn rejected(accel: &str, problem: &str) -> (r: String)
    ensures
        r@ == "could not register hotkey '"@ + accel@ + "': "@ + problem@,
{
    let mut out = around("could not register hotkey '", accel, "': ");
    out.append(problem);
    assert(out@ =~= "could not register hotkey '"@ + accel@ + "': "@ + problem@);
    out
}

} // verus!
