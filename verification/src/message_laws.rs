//! Laws of what the user is told: each message names what it is about.

use crate::error::IndexError;
use crate::fileops;
use crate::hotkey;
use crate::ipc;
use crate::ipc::{FrameError, Response, ServiceClient};
use crate::scm::ScmError;
use crate::status::IndexStatus;
use crate::text;
use vstd::prelude::*;

verus! {

/// Whether `part` stands somewhere in `s`.
pub open spec fn mentions(s: Seq<char>, part: Seq<char>) -> bool {
    exists|i: int|
        0 <= i <= s.len() - part.len() && #[trigger] s.subrange(i, i + part.len()) == part
}

proof fn lemma_mentions(a: Seq<char>, part: Seq<char>, b: Seq<char>)
    ensures
        mentions(a + part + b, part),
{
    let s = a + part + b;
    let i = a.len() as int;
    assert(s.subrange(i, i + part.len()) =~= part);
}

/// The message of an error of an index names the volume and, for a failed call, its code;
/// for a failed read also where it was.
#[verifier::rlimit(40)]
pub proof fn law_index_error(e: IndexError, r: String)
    requires
        call_ensures(IndexError::message, (&e,), r),
    ensures
        e matches IndexError::AccessDenied(v) ==> mentions(r@, v@) && mentions(
            r@,
            "run AllTheThings as Administrator"@,
        ),
        e matches IndexError::Open { volume, code } ==> mentions(r@, volume@) && mentions(
            r@,
            text::decimal(code as nat),
        ),
        e matches IndexError::Read { volume, offset, code } ==> mentions(r@, volume@) && mentions(
            r@,
            text::decimal(offset as nat),
        ) && mentions(r@, text::decimal(code as nat)),
        e matches IndexError::NotNtfs(v) ==> r@ == v@ + " is not an NTFS volume"@,
        e matches IndexError::Malformed { volume, detail } ==> mentions(r@, volume@) && mentions(
            r@,
            detail@,
        ),
{
    let none = Seq::<char>::empty();
    match e {
        IndexError::AccessDenied(v) => {
            let tail = " \u{2014} run AllTheThings as Administrator"@;
            lemma_mentions("access denied opening "@, v@, tail);
            reveal_strlit(" \u{2014} run AllTheThings as Administrator");
            reveal_strlit("run AllTheThings as Administrator");
            let told = "run AllTheThings as Administrator"@;
            let head = "access denied opening "@ + v@ + tail.take(3);
            assert(tail =~= tail.take(3) + told);
            assert(r@ =~= head + told + none);
            lemma_mentions(head, told, none);
        },
        IndexError::Open { volume, code } => {
            let n = text::decimal(code as nat);
            let head = "failed to open volume "@;
            assert(r@ =~= head + volume@ + (": OS error "@ + n));
            lemma_mentions(head, volume@, ": OS error "@ + n);
            assert(r@ =~= (head + volume@ + ": OS error "@) + n + none);
            lemma_mentions(head + volume@ + ": OS error "@, n, none);
        },
        IndexError::Read { volume, offset, code } => {
            let n = text::decimal(code as nat);
            let o = text::decimal(offset as nat);
            let head = "I/O error reading "@;
            let mid = " at offset "@;
            let end = ": OS error "@;
            assert(r@ =~= head + volume@ + (mid + o + end + n));
            lemma_mentions(head, volume@, mid + o + end + n);
            assert(r@ =~= (head + volume@ + mid) + o + (end + n));
            lemma_mentions(head + volume@ + mid, o, end + n);
            assert(r@ =~= (head + volume@ + mid + o + end) + n + none);
            lemma_mentions(head + volume@ + mid + o + end, n, none);
        },
        IndexError::NotNtfs(_) => {},
        IndexError::Malformed { volume, detail } => {
            let head = "malformed MFT on "@;
            assert(r@ =~= head + volume@ + (": "@ + detail@));
            lemma_mentions(head, volume@, ": "@ + detail@);
            assert(r@ =~= (head + volume@ + ": "@) + detail@ + none);
            lemma_mentions(head + volume@ + ": "@, detail@, none);
        },
    }
}

/// The message of a frame that is too long says how long it is and how long it may be.
pub proof fn law_frame_error(e: FrameError, r: String)
    requires
        call_ensures(FrameError::message, (&e,), r),
    ensures
        e matches FrameError::OverLimit { len, max } ==> r@ == "frame of "@ + text::decimal(
            len as nat,
        ) + " bytes exceeds the "@ + text::decimal(max as nat) + "-byte limit"@,
        e is MidFrame ==> r@ == "connection closed mid-frame"@,
        e is TooLarge ==> r@ == "frame too large"@,
{
}

/// A failed call of the service manager is told with its code and what the system says.
pub proof fn law_scm_error(e: ScmError, r: String)
    requires
        call_ensures(ScmError::friendly, (&e,), r),
    ensures
        e matches ScmError::Winapi { code: Some(c), text: t } ==> c != 5 ==> mentions(r@, t@)
            && mentions(r@, text::signed_decimal(c as int)),
        e matches ScmError::Other(t) ==> r@ == t@,
{
    if let ScmError::Winapi { code: Some(c), text: t } = e {
        if c != 5 {
            let none = Seq::<char>::empty();
            let n = text::signed_decimal(c as int);
            let head = "service operation failed (error "@;
            assert(r@ =~= head + n + ("): "@ + t@));
            lemma_mentions(head, n, "): "@ + t@);
            assert(r@ =~= (head + n + "): "@) + t@ + none);
            lemma_mentions(head + n + "): "@, t@, none);
        }
    }
}

/// What the client shows for a reply to a question for the status: the status as it is,
/// and for anything else an error of the service and why.
pub proof fn law_client_status(c: ServiceClient, reply: Result<Response, String>, r: IndexStatus)
    requires
        call_ensures(ServiceClient::status, (&c, reply), r),
    ensures
        reply matches Ok(Response::Status(s)) ==> r@ == s@,
        !(reply matches Ok(Response::Status(_))) ==> r.state@ == "error"@ && r.volume@
            == "service"@,
        reply matches Ok(Response::Error(m)) ==> r.message@ == m@,
        reply matches Err(problem) ==> mentions(r.message@, problem@),
{
    if let Err(problem) = reply {
        let none = Seq::<char>::empty();
        let head = "background service unavailable: "@;
        assert(r.message@ =~= head + problem@ + none);
        lemma_mentions(head, problem@, none);
    }
}

/// Refusals name what they refuse: a name that is taken, a move with its code, a request
/// and a hotkey with the problem.
pub proof fn law_refusals(
    s: &str,
    problem: &str,
    code: u32,
    taken: String,
    failed: String,
    request: Response,
    rejected: String,
)
    requires
        call_ensures(fileops::name_taken, (s,), taken),
        call_ensures(fileops::move_failed, (code,), failed),
        call_ensures(ipc::refuse, (problem,), request),
        call_ensures(hotkey::rejected, (s, problem), rejected),
    ensures
        mentions(taken@, s@),
        mentions(failed@, text::decimal(code as nat)),
        request matches Response::Error(m) && mentions(m@, problem@),
        mentions(rejected@, s@) && mentions(rejected@, problem@),
{
    let none = Seq::<char>::empty();
    lemma_mentions("\""@, s@, "\" already exists"@);
    lemma_mentions("rename failed (code "@, text::decimal(code as nat), ")"@);
    let m = request->Error_0;
    assert(m@ =~= "bad request: "@ + problem@ + none);
    lemma_mentions("bad request: "@, problem@, none);
    let head = "could not register hotkey '"@;
    assert(rejected@ =~= head + s@ + ("': "@ + problem@));
    lemma_mentions(head, s@, "': "@ + problem@);
    assert(rejected@ =~= (head + s@ + "': "@) + problem@ + none);
    lemma_mentions(head + s@ + "': "@, problem@, none);
}

} // verus!
