//! The query-only protocol between the GUI client and the background service: the
//! requests and responses, how their bodies are framed on the pipe, and what the
//! client makes of a reply.
//!
//! The protocol is deliberately **query-only**: no request can make the (elevated)
//! service open, write, rename, delete, or execute anything. All such actions stay
//! in the GUI, running in the user's own context.

use crate::bytes;
use crate::bytes::{copy_part, read_u32};
use crate::catalog::Catalog;
use crate::hit::{Hit, SearchResult};
use crate::search::SearchOptions;
use crate::status;
use crate::status::IndexStatus;
use crate::text;
use crate::text::push_decimal;
use vstd::prelude::*;
use vstd::string::*;

verus! {

/// The named pipe the service hosts and the GUI connects to.
pub const PIPE_NAME: &'static str = "\\\\.\\pipe\\AllTheThings";

/// Bumped on any incompatible wire change. A client that gets a different version
/// from `Pong` falls back to in-process indexing rather than risk misparsing a
/// mismatched service from an in-flight auto-update.
pub const PROTOCOL_VERSION: u32 = 1;

/// Cap on a request frame (client to service). Requests are tiny (a query plus
/// flags), so this is small: the service runs with full rights and accepts any
/// authenticated user.
pub const MAX_REQUEST: u32 = 65_536;

/// Cap on a response frame (service to client). Larger to fit big result sets, but
/// still bounded against a runaway or incompatible peer.
pub const MAX_RESPONSE: u32 = 268_435_456;

/// Upper bound on hits the service returns for one query, whatever limit the client
/// asks for.
pub const MAX_SERVICE_HITS: usize = 200_000;

/// A request from the GUI to the service.
#[derive(Debug)]
pub enum Request {
    /// Run a search and return ranked hits.
    Search(SearchOptions),
    /// Fetch the indexer's status snapshot.
    Status,
    /// Liveness + version probe used to decide whether to use the service.
    Ping,
}

/// A response from the service to the GUI.
#[derive(Debug)]
pub enum Response {
    Search(SearchResult),
    Status(IndexStatus),
    Pong { protocol_version: u32 },
    /// A server-side failure, surfaced to the user as degraded status.
    Error(String),
}

/// Why a frame cannot be written or read.
#[derive(Debug, Clone, Copy, PartialEq, Eq, Structural)]
pub enum FrameError {
    /// The body does not fit in a frame.
    TooLarge,
    /// The stream ended before the length was complete.
    NoLength,
    /// The frame says that it is longer than accepted.
    OverLimit { len: u32, max: u32 },
    /// The stream ended inside the body.
    MidFrame,
}

impl FrameError {
    /// What the error says to the user.
    pub open spec fn text(self) -> Seq<char> {
        match self {
            FrameError::TooLarge => "frame too large"@,
            FrameError::NoLength => "failed to fill whole buffer"@,
            FrameError::OverLimit { len, max } => "frame of "@ + text::decimal(len as nat)
                + " bytes exceeds the "@ + text::decimal(max as nat) + "-byte limit"@,
            FrameError::MidFrame => "connection closed mid-frame"@,
        }
    }

    /// What the error says to the user.
    pub fn message(&self) -> (r: String)
        ensures
            r@ == self.text(),
    {
        let mut out = String::new();
        match self {
            FrameError::TooLarge => {
                out.append("frame too large");
            },
            FrameError::NoLength => {
                out.append("failed to fill whole buffer");
            },
            FrameError::OverLimit { len, max } => {
                out.append("frame of ");
                push_decimal(&mut out, *len as u64);
                out.append(" bytes exceeds the ");
                push_decimal(&mut out, *max as u64);
                out.append("-byte limit");
            },
            FrameError::MidFrame => {
                out.append("connection closed mid-frame");
            },
        }
        assert(out@ =~= self.text());
        out
    }
}

/// The bytes of a 32-bit number, the lowest first.
pub open spec fn le_bytes(n: int) -> Seq<u8> {
    seq![
        (n % 256) as u8,
        (n / 256 % 256) as u8,
        (n / 65_536 % 256) as u8,
        (n / 16_777_216 % 256) as u8,
    ]
}

/// The frame of a body: its length, and the body.
pub open spec fn frame_of(body: Seq<u8>) -> Seq<u8> {
    le_bytes(body.len() as int) + body
}

/// What stands at the start of a stream: the body of its first frame, or why there
/// is none. A frame that is longer than `max` is rejected by its length alone.
pub open spec fn first_frame(stream: Seq<u8>, max: u32) -> Result<Seq<u8>, FrameError> {
    let len = bytes::le_at(stream, 0, 4);
    if stream.len() < 4 {
        Err(FrameError::NoLength)
    } else if len > max {
        Err(FrameError::OverLimit { len: len as u32, max })
    } else if stream.len() - 4 < len {
        Err(FrameError::MidFrame)
    } else {
        Ok(stream.subrange(4, 4 + len as int))
    }
}

/// Frame a body for the pipe: a little-endian byte length followed by the body.
pub fn write_frame(body: &[u8]) -> (r: Result<Vec<u8>, FrameError>)
    ensures
        match r {
            Ok(f) => body@.len() <= u32::MAX && f@ == frame_of(body@),
            Err(e) => body@.len() > u32::MAX && e == FrameError::TooLarge,
        },
{
    let size: usize = body.len();
    if size as u64 > u32::MAX as u64 {
        return Err(FrameError::TooLarge);
    }
    let n: u64 = size as u64;
    let mut out: Vec<u8> = Vec::new();
    out.push((n % 256) as u8);
    out.push((n / 256 % 256) as u8);
    out.push((n / 65_536 % 256) as u8);
    out.push((n / 16_777_216 % 256) as u8);
    let mut copy = copy_part(body, 0, size);
    out.append(&mut copy);
    assert(out@ =~= frame_of(body@));
    Ok(out)
}

/// The length of the body behind a frame's first four bytes, rejecting any frame
/// larger than `max`.
pub fn frame_length(header: &[u8], max: u32) -> (r: Result<u32, FrameError>)
    ensures
        r == if header@.len() < 4 {
            Err::<u32, FrameError>(FrameError::NoLength)
        } else if bytes::le_at(header@, 0, 4) > max {
            Err(FrameError::OverLimit { len: bytes::le_at(header@, 0, 4) as u32, max })
        } else {
            Ok(bytes::le_at(header@, 0, 4) as u32)
        },
{
    if header.len() < 4 {
        return Err(FrameError::NoLength);
    }
    let len: u32 = read_u32(header, 0);
    if len > max {
        return Err(FrameError::OverLimit { len, max });
    }
    Ok(len)
}

/// The body that was read behind a length, unless the stream ended inside it.
pub fn frame_body(len: u32, read: Vec<u8>) -> (r: Result<Vec<u8>, FrameError>)
    ensures
        r == if read@.len() == len {
            Ok::<Vec<u8>, FrameError>(read)
        } else {
            Err(FrameError::MidFrame)
        },
{
    if read.len() as u64 != len as u64 {
        return Err(FrameError::MidFrame);
    }
    Ok(read)
}

/// Read one frame off the start of a stream, rejecting any frame larger than `max`.
pub fn read_frame(stream: &[u8], max: u32) -> (r: Result<Vec<u8>, FrameError>)
    ensures
        match r {
            Ok(body) => first_frame(stream@, max) == Ok::<Seq<u8>, FrameError>(body@),
            Err(e) => first_frame(stream@, max) == Err::<Seq<u8>, FrameError>(e),
        },
{
    match frame_length(stream, max) {
        Err(e) => Err(e),
        Ok(len) => {
            let behind: usize = stream.len() - 4;
            if (behind as u64) < len as u64 {
                return Err(FrameError::MidFrame);
            }
            Ok(copy_part(stream, 4, 4 + len as usize))
        },
    }
}

/// What is framed comes back from the stream, whatever follows it, when it is no
/// longer than accepted; and is rejected when it is longer.
pub proof fn law_frame_round_trip(body: Seq<u8>, rest: Seq<u8>, max: u32)
    requires
        body.len() <= u32::MAX,
    ensures
        body.len() <= max ==> first_frame(frame_of(body) + rest, max) == Ok::<
            Seq<u8>,
            FrameError,
        >(body),
        body.len() > max ==> first_frame(frame_of(body) + rest, max) == Err::<
            Seq<u8>,
            FrameError,
        >(FrameError::OverLimit { len: body.len() as u32, max }),
{
    let stream = frame_of(body) + rest;
    let head = le_bytes(body.len() as int);
    assert(stream.subrange(0, 4) =~= head);
    lemma_le_bytes(body.len() as int);
    if body.len() <= max {
        assert(stream.subrange(4, 4 + body.len() as int) =~= body);
    }
}

proof fn lemma_le_bytes(n: int)
    requires
        0 <= n <= u32::MAX,
    ensures
        bytes::le(le_bytes(n)) == n,
{
    let b = le_bytes(n);
    reveal_with_fuel(bytes::le, 5);
    assert(b.len() == 4);
    assert(n == n % 256 + 256 * (n / 256 % 256) + 65_536 * (n / 65_536 % 256) + 16_777_216 * (n
        / 16_777_216 % 256));
}

/// Whether a response is the service's answer to a request.
pub open spec fn answers(
    request: Request,
    index: Catalog,
    status: IndexStatus,
    response: Response,
) -> bool {
    match request {
        Request::Search(options) => {
            let limit = if options.limit < MAX_SERVICE_HITS {
                options.limit
            } else {
                MAX_SERVICE_HITS
            };
            response matches Response::Search(result) && index.searched(
                SearchOptions { limit, ..options },
                result,
            )
        },
        Request::Status => response == Response::Status(status),
        Request::Ping => response == (Response::Pong { protocol_version: PROTOCOL_VERSION }),
    }
}

/// Answer one request from the index and its status. The client-supplied limit is
/// clamped to bound the result set that the service builds.
pub fn answer(request: Request, index: &Catalog, status: IndexStatus) -> (r: Response)
    requires
        index.wf(),
    ensures
        answers(request, *index, status, r),
{
    match request {
        Request::Search(options) => {
            let mut options = options;
            if options.limit > MAX_SERVICE_HITS {
                options.limit = MAX_SERVICE_HITS;
            }
            Response::Search(index.search(&options))
        },
        Request::Status => Response::Status(status),
        Request::Ping => Response::Pong { protocol_version: PROTOCOL_VERSION },
    }
}

/// The answer to a request that could not be read: a clear failure rather than a
/// dropped pipe.
pub fn refuse(problem: &str) -> (r: Response)
    ensures
        r matches Response::Error(message) && message@ == "bad request: "@ + problem@,
{
    let mut out = String::new();
    out.append("bad request: ");
    out.append(problem);
    assert(out@ =~= "bad request: "@ + problem@);
    Response::Error(out)
}

/// A stateless handle to the background service.
#[derive(Debug, Clone, Copy, PartialEq, Eq, Structural)]
pub struct ServiceClient;

/// What the user is told when the service cannot be reached.
pub open spec fn unavailable_of(problem: Seq<char>) -> Seq<char> {
    "background service unavailable: "@ + problem
}

fn unavailable(problem: &str) -> (r: String)
    ensures
        r@ == unavailable_of(problem@),
{
    let mut out = String::new();
    out.append("background service unavailable: ");
    out.append(problem);
    assert(out@ =~= unavailable_of(problem@));
    out
}

/// Whether a reply to a ping comes from a service that speaks this protocol.
pub open spec fn usable(reply: Result<Response, String>) -> bool {
    reply matches Ok(Response::Pong { protocol_version }) && protocol_version == PROTOCOL_VERSION
}

impl ServiceClient {
    /// Probe for a live service whose protocol matches ours, given its reply to a
    /// `Ping` or why there is none. Gives a client only on a `Pong` carrying
    /// [`PROTOCOL_VERSION`]: a missing service, or one from a mismatched build,
    /// gives `None` so that the caller falls back to in-process indexing.
    pub fn probe(reply: &Result<Response, String>) -> (r: Option<Self>)
        ensures
            r is Some <==> usable(*reply),
    {
        match reply {
            Ok(Response::Pong { protocol_version }) => {
                if *protocol_version == PROTOCOL_VERSION {
                    Some(ServiceClient)
                } else {
                    None
                }
            },
            _ => None,
        }
    }

    /// What a search gives, given the service's reply. A transport or protocol
    /// failure becomes a result carrying the error, so the UI degrades visibly
    /// instead of silently falling back to a different (local) index mid-session.
    pub fn search(&self, reply: Result<Response, String>) -> (r: SearchResult)
        ensures
            match reply {
                Ok(Response::Search(result)) => r == result,
                _ => {
                    &&& r.total == 0 && r.took_ms == 0 && !r.capped
                    &&& r.hits@ == Seq::<Hit>::empty()
                    &&& r.error matches Some(m) && m@ == match reply {
                        Ok(Response::Error(message)) => message@,
                        Ok(_) => "unexpected response from service"@,
                        Err(problem) => unavailable_of(problem@),
                    }
                },
            },
    {
        match reply {
            Ok(Response::Search(result)) => result,
            Ok(Response::Error(message)) => SearchResult::error(message, 0),
            Ok(_) => SearchResult::error("unexpected response from service".to_string(), 0),
            Err(problem) => SearchResult::error(unavailable(problem.as_str()), 0),
        }
    }

    /// The service's index status, given its reply, degrading to an error status
    /// when the service can't be reached.
    pub fn status(&self, reply: Result<Response, String>) -> (r: IndexStatus)
        ensures
            r@ == match reply {
                Ok(Response::Status(s)) => s@,
                Ok(Response::Error(message)) => status::error_of("service"@, message@),
                Ok(_) => status::error_of("service"@, "unexpected response from service"@),
                Err(problem) => status::error_of("service"@, unavailable_of(problem@)),
            },
    {
        match reply {
            Ok(Response::Status(s)) => s,
            Ok(Response::Error(message)) => IndexStatus::error("service".to_string(), message),
            Ok(_) => IndexStatus::error(
                "service".to_string(),
                "unexpected response from service".to_string(),
            ),
            Err(problem) => IndexStatus::error(
                "service".to_string(),
                unavailable(problem.as_str()),
            ),
        }
    }
}

/// A client finds a service of the same build: the answer to a ping makes it usable.
pub proof fn law_same_build(index: Catalog, status: IndexStatus, response: Response)
    requires
        answers(Request::Ping, index, status, response),
    ensures
        usable(Ok(response)),
{
}

} // verus!
