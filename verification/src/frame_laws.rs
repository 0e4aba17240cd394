//! Laws of the channel to the background service and of the saved index.

use crate::byte_laws;
use crate::cache::Snapshot;
use crate::catalog;
use crate::catalog::Catalog;
use crate::hit::SearchResult;
use crate::ipc;
use crate::ipc::{FrameError, Request, Response, ServiceClient};
use crate::matcher::Matcher;
use crate::pipe;
use crate::pipe::ConnectStep;
use crate::search::SearchOptions;
use crate::status::IndexStatus;
use vstd::prelude::*;

verus! {

/// A frame is its body behind four bytes that say how long that is, the low ones first.
pub proof fn law_frame_bytes(body: &[u8], r: Result<Vec<u8>, FrameError>)
    requires
        call_ensures(ipc::write_frame, (body,), r),
    ensures
        body@.len() <= u32::MAX ==> r is Ok,
        r matches Ok(f) ==> f@.len() == 4 + body@.len() && f@.skip(4) == body@ && byte_laws::four(
            f@,
            0,
        ) == body@.len(),
{
    if r is Ok {
        let f = (r->Ok_0)@;
        let n = body@.len() as int;
        assert(f.skip(4) =~= body@);
        let a = n % 256;
        let b = n / 256 % 256;
        let c = n / 65_536 % 256;
        let d = n / 16_777_216 % 256;
        assert(n == a + 256 * b + 65_536 * c + 16_777_216 * d);
        assert(f[0] == a && f[1] == b && f[2] == c && f[3] == d);
    }
}

/// What a reader makes of a stream: the bytes behind the length, as many as that says; an
/// error where the length is not there, says more than is accepted, or more than follows.
pub proof fn law_frame_read(stream: &[u8], max: u32, r: Result<Vec<u8>, FrameError>)
    requires
        call_ensures(ipc::read_frame, (stream, max), r),
    ensures
        stream@.len() < 4 ==> r == Err::<Vec<u8>, FrameError>(FrameError::NoLength),
        stream@.len() >= 4 ==> {
            let n = byte_laws::four(stream@, 0);
            &&& n > max ==> (r matches Err(FrameError::OverLimit { len, max: m }) && len == n && m
                == max)
            &&& n <= max && stream@.len() < 4 + n ==> r == Err::<Vec<u8>, FrameError>(
                FrameError::MidFrame,
            )
            &&& n <= max && stream@.len() >= 4 + n ==> (r matches Ok(b) && b@.len() == n
                && forall|i: int| 0 <= i < n ==> b@[i] == #[trigger] stream@[4 + i])
        },
{
    byte_laws::law_low_byte_first(stream@, 0);
}

/// The length that the head of a frame says is taken only where it is accepted.
pub proof fn law_frame_head(header: &[u8], max: u32, r: Result<u32, FrameError>)
    requires
        header@.len() >= 4,
        call_ensures(ipc::frame_length, (header, max), r),
    ensures
        byte_laws::four(header@, 0) <= max <==> r is Ok,
        r matches Ok(n) ==> n == byte_laws::four(header@, 0),
        r matches Err(e) ==> e == (FrameError::OverLimit {
            len: byte_laws::four(header@, 0) as u32,
            max,
        }),
{
    byte_laws::law_low_byte_first(header@, 0);
}

/// A body is taken only where it is as long as was said.
pub proof fn law_frame_whole(len: u32, read: Vec<u8>, r: Result<Vec<u8>, FrameError>)
    requires
        call_ensures(ipc::frame_body, (len, read), r),
    ensures
        read@.len() == len ==> r == Ok::<Vec<u8>, FrameError>(read),
        read@.len() != len ==> r == Err::<Vec<u8>, FrameError>(FrameError::MidFrame),
{
}

/// The service hands out no more rows than were asked for, and no more than 200000.
pub proof fn law_served_rows(
    opts: SearchOptions,
    index: Catalog,
    status: IndexStatus,
    r: Response,
)
    requires
        ipc::answers(Request::Search(opts), index, status, r),
    ensures
        r matches Response::Search(found) && found.hits@.len() <= opts.limit && found.hits@.len()
            <= 200_000,
{
    let found = r->Search_0;
    let asked = SearchOptions {
        limit: if opts.limit < 200_000 {
            opts.limit
        } else {
            200_000
        },
        ..opts
    };
    assert(index.searched(asked, found));
    if found.error is None {
        let m = choose|m: Matcher| #[trigger]
            catalog::compiles_to(asked, m) && index.answered(asked, m, found);
        catalog::law_row_count(index, asked, m, found);
    }
}

/// The service answers each request by its kind: a search as the index does with the rows
/// that it hands out, a question for the status with that, and a ping with its version.
pub proof fn law_answer(request: Request, index: Catalog, status: IndexStatus, r: Response)
    requires
        index.wf(),
        call_ensures(ipc::answer, (request, &index, status), r),
    ensures
        request matches Request::Search(opts) ==> (r matches Response::Search(found) && (opts.limit
            <= 200_000 ==> index.searched(opts, found))),
        request is Status ==> r == Response::Status(status),
        request is Ping ==> r == (Response::Pong { protocol_version: 1 }),
{
    if let Request::Search(opts) = request {
        if opts.limit <= 200_000 {
            let limit = if opts.limit < 200_000 {
                opts.limit
            } else {
                200_000
            };
            assert(SearchOptions { limit, ..opts } == opts);
        }
    }
}

/// The service is used only where it answers a ping with the version of this build.
pub proof fn law_probe(reply: Result<Response, String>, r: Option<ServiceClient>)
    requires
        call_ensures(ServiceClient::probe, (&reply,), r),
    ensures
        r is Some <==> (reply matches Ok(Response::Pong { protocol_version }) && protocol_version
            == 1),
{
}

/// What a client shows for a reply to a search: the result as it is, and for anything else
/// no rows and why.
pub proof fn law_client_search(
    c: ServiceClient,
    reply: Result<Response, String>,
    r: SearchResult,
)
    requires
        call_ensures(ServiceClient::search, (&c, reply), r),
    ensures
        reply matches Ok(Response::Search(found)) ==> r == found,
        !(reply matches Ok(Response::Search(_))) ==> r.hits@.len() == 0 && r.total == 0
            && r.error is Some,
        reply matches Ok(Response::Error(message)) ==> (r.error->0)@ == message@,
        reply matches Err(problem) ==> (r.error->0)@ == "background service unavailable: "@
            + problem@,
{
}

/// A pipe that was connected to before it was waited for is connected to.
pub proof fn law_pipe_accepted(failure: Option<u32>, r: Result<(), u32>)
    requires
        call_ensures(pipe::accepted, (failure,), r),
    ensures
        r is Ok <==> failure is None || failure == Some(535u32),
        r matches Err(code) ==> failure == Some(code),
{
}

/// A pipe whose other end was closed has nothing more to read.
pub proof fn law_pipe_read(read: u32, failure: Option<u32>, r: Result<u32, u32>)
    requires
        call_ensures(pipe::bytes_read, (read, failure), r),
    ensures
        failure is None ==> r == Ok::<u32, u32>(read),
        failure == Some(109u32) ==> r == Ok::<u32, u32>(0u32),
        failure matches Some(code) ==> code != 109 ==> r == Err::<u32, u32>(code),
{
}

/// A client waits for a busy pipe, for a missing one as long as there is time, and for
/// nothing else.
pub proof fn law_pipe_connect(code: u32, expired: bool, r: ConnectStep)
    requires
        call_ensures(pipe::connect, (code, expired), r),
    ensures
        r is WaitFree <==> code == 231,
        r is Pause <==> code == 2 && !expired,
        r is Fail <==> code != 231 && (code != 2 || expired),
        r matches ConnectStep::Fail { code: c } ==> c == code,
{
}

/// A saved index is loaded for its own drive and from the format of this build, and as it
/// is.
pub proof fn law_cache_loads(s: Snapshot, drive: char, r: Option<Snapshot>)
    requires
        call_ensures(Snapshot::load, (s, drive), r),
    ensures
        r is Some <==> s.format_version == 2 && s.drive == drive,
        r matches Some(t) ==> t == s,
{
}

} // verus!
