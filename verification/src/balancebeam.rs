//! The decisions of a load-balancing proxy: which upstream server to try,
//! which servers count as alive after a health check, and what to do with a
//! client's connection after each thing that happens on it.

use crate::text::{numeral_value, parse_numeral};
use rand::rngs::StdRng;
use rand::Rng;
use vstd::prelude::*;

verus! {

/// The status code of a response that is fine.
pub const OK: u16 = 200;

/// The status code for a request that cannot be understood.
pub const BAD_REQUEST: u16 = 400;

/// The status code for a request whose body is too long.
pub const PAYLOAD_TOO_LARGE: u16 = 413;

/// The status code for an upstream server that cannot be reached or heard.
pub const BAD_GATEWAY: u16 = 502;

/// The status code for a connection that broke.
pub const SERVICE_UNAVAILABLE: u16 = 503;

/// The standard generator of the `rand` crate. The library only hands it
/// on to `random_below`.
#[verifier::external_type_specification]
#[verifier::external_body]
pub struct ExStdRng(StdRng);

/// `rand::Rng::gen_range` on the range `0..bound`. The crate documents that
/// the value lies in the range and that an empty range panics, which
/// `requires` rules out; which value comes is left open.
#[verifier::external_body]
fn random_below(rng: &mut StdRng, bound: usize) -> (index: usize)
    requires
        bound > 0,
    ensures
        index < bound,
{
    rng.gen_range(0..bound)
}

/// Picks one of the live upstream servers at random; none if none is alive.
pub fn choose_upstream(rng: &mut StdRng, live: &Vec<String>) -> (choice: Option<usize>)
    ensures
        match choice {
            Some(index) => index < live@.len(),
            None => live@.len() == 0,
        },
{
    if live.len() == 0 {
        None
    } else {
        Some(random_below(rng, live.len()))
    }
}

/// The list of live servers without the one at `index`: the last server
/// takes its place. An index beyond the list leaves it as it is.
pub open spec fn without_upstream(live: Seq<String>, index: int) -> Seq<String> {
    if 0 <= index < live.len() {
        live.update(index, live.last()).drop_last()
    } else {
        live
    }
}

/// What follows an attempt to connect to an upstream server.
#[derive(Clone, Copy, PartialEq, Eq, Structural, Debug)]
pub enum ConnectNext {
    /// The connection stands.
    Connected,
    /// Another server is to be tried.
    Retry,
    /// All upstreams are dead.
    GiveUp,
}

/// Notes how the attempt to connect to the live server at `index` went. A
/// server that refused leaves the list of live servers.
pub fn after_connect_attempt(live: &mut Vec<String>, index: usize, connected: bool) -> (next:
    ConnectNext)
    ensures
        connected ==> next == ConnectNext::Connected && final(live)@ == old(live)@,
        !connected ==> final(live)@ == without_upstream(old(live)@, index as int),
        !connected ==> next == (if final(live)@.len() == 0 {
            ConnectNext::GiveUp
        } else {
            ConnectNext::Retry
        }),
{
    if connected {
        return ConnectNext::Connected;
    }
    if index < live.len() {
        let _ = live.swap_remove(index);
        assert(live@ =~= without_upstream(old(live)@, index as int));
    }
    if live.len() == 0 {
        ConnectNext::GiveUp
    } else {
        ConnectNext::Retry
    }
}

/// How the probe of one upstream server went.
#[derive(Clone, Copy, PartialEq, Eq, Structural, Debug)]
pub enum Probe {
    /// No connection could be made.
    Unreachable,
    /// The request could not be written.
    SendFailed,
    /// No response could be read.
    NoResponse,
    /// The server answered with this status code.
    Answered(u16),
}

/// What a health check does next.
#[derive(Clone, Copy, PartialEq, Eq, Structural, Debug)]
pub enum HealthNext {
    /// Probe the upstream server with this index.
    Probe(usize),
    /// The round is complete: sleep for the interval, then begin the next.
    Sleep,
    /// The health check ends for good.
    Stop,
}

/// What comes after the server with this index in a round over `count` servers.
pub open spec fn probe_after(index: int, count: int) -> HealthNext {
    if 0 <= index + 1 < count && index + 1 <= usize::MAX {
        HealthNext::Probe((index + 1) as usize)
    } else {
        HealthNext::Sleep
    }
}

/// Begins a round of the health check: no server counts as alive until it
/// has answered.
pub fn begin_round(live: &mut Vec<String>, upstreams: &Vec<String>) -> (next: HealthNext)
    ensures
        final(live)@.len() == 0,
        next == probe_after(-1, upstreams@.len() as int),
{
    live.clear();
    if upstreams.len() > 0 {
        HealthNext::Probe(0)
    } else {
        HealthNext::Sleep
    }
}

/// Notes the probe of the upstream server with this index. A server that
/// answers with `OK` joins the live servers and the round goes on; any other
/// outcome ends the health check, and the servers probed so far stay alive.
pub fn after_probe(live: &mut Vec<String>, upstreams: &Vec<String>, index: usize, probe: Probe) -> (next:
    HealthNext)
    ensures
        if probe == Probe::Answered(OK) && index < upstreams@.len() {
            &&& final(live)@.len() == old(live)@.len() + 1
            &&& final(live)@.last()@ == upstreams@[index as int]@
            &&& final(live)@.drop_last() == old(live)@
            &&& next == probe_after(index as int, upstreams@.len() as int)
        } else {
            &&& final(live)@ == old(live)@
            &&& next == HealthNext::Stop
        },
{
    match probe {
        Probe::Answered(status) => {
            if status == OK && index < upstreams.len() {
                live.push(upstreams[index].clone());
                assert(live@.drop_last() =~= old(live)@);
                if index + 1 < upstreams.len() {
                    HealthNext::Probe(index + 1)
                } else {
                    HealthNext::Sleep
                }
            } else {
                HealthNext::Stop
            }
        },
        _ => HealthNext::Stop,
    }
}

/// Why a request of the client could not be read.
#[derive(Clone, Copy, PartialEq, Eq, Structural, Debug)]
pub enum RequestError {
    /// The client hung up after this many bytes of a request.
    IncompleteRequest(usize),
    MalformedRequest,
    InvalidContentLength,
    ContentLengthMismatch,
    RequestBodyTooLarge,
    ConnectionError,
}

/// The status code that answers a request that could not be read.
pub open spec fn status_for(error: RequestError) -> u16 {
    match error {
        RequestError::RequestBodyTooLarge => PAYLOAD_TOO_LARGE,
        RequestError::ConnectionError => SERVICE_UNAVAILABLE,
        _ => BAD_REQUEST,
    }
}

/// Whether the error means that the client is gone: it hung up between two
/// requests, or the connection broke.
pub open spec fn client_gone(error: RequestError) -> bool {
    error == RequestError::IncompleteRequest(0) || error == RequestError::ConnectionError
}

/// The longest head of a message that is read.
pub const MAX_HEADERS_SIZE: usize = 8000;

/// The longest body of a message that is read.
pub const MAX_BODY_SIZE: usize = 10000000;

/// The most headers that a message may have.
pub const MAX_NUM_HEADERS: usize = 32;

/// What the head of a message says of the length of its body.
#[derive(Clone, Copy, PartialEq, Eq, Structural, Debug)]
pub enum ContentLength {
    /// Nothing.
    Absent,
    /// Something that is no number.
    Invalid,
    /// This many bytes.
    Given(usize),
}

/// What the text of a content-length header says.
pub open spec fn declared_length(text: Seq<char>) -> ContentLength {
    match numeral_value(text, 10) {
        Some(n) => if n <= usize::MAX {
            ContentLength::Given(n as usize)
        } else {
            ContentLength::Invalid
        },
        None => ContentLength::Invalid,
    }
}

/// Reads the text of a content-length header.
pub fn parse_content_length(text: &str) -> (declared: ContentLength)
    ensures
        declared == declared_length(text@),
{
    match parse_numeral(text, 10) {
        Some(n) => if n <= usize::MAX as u64 {
            ContentLength::Given(n as usize)
        } else {
            ContentLength::Invalid
        },
        None => ContentLength::Invalid,
    }
}

/// How many bytes of the body of a request are still to be read when
/// `buffered` bytes of it came with the head, or why the request is refused:
/// without a declared length the body is empty, a declared length must be a
/// number within `MAX_BODY_SIZE`, and no more may have come than was declared.
pub open spec fn body_left(declared: ContentLength, buffered: usize) -> Result<usize, RequestError> {
    match declared {
        ContentLength::Invalid => Err(RequestError::InvalidContentLength),
        ContentLength::Absent => if buffered > 0 {
            Err(RequestError::ContentLengthMismatch)
        } else {
            Ok(0usize)
        },
        ContentLength::Given(length) => if length > MAX_BODY_SIZE {
            Err(RequestError::RequestBodyTooLarge)
        } else if buffered > length {
            Err(RequestError::ContentLengthMismatch)
        } else {
            Ok((length - buffered) as usize)
        },
    }
}

/// Decides how much of a request's body is still to be read.
pub fn request_body_left(declared: ContentLength, buffered: usize) -> (left: Result<
    usize,
    RequestError,
>)
    ensures
        left == body_left(declared, buffered),
{
    match declared {
        ContentLength::Invalid => Err(RequestError::InvalidContentLength),
        ContentLength::Absent => if buffered > 0 {
            Err(RequestError::ContentLengthMismatch)
        } else {
            Ok(0)
        },
        ContentLength::Given(length) => if length > MAX_BODY_SIZE {
            Err(RequestError::RequestBodyTooLarge)
        } else if buffered > length {
            Err(RequestError::ContentLengthMismatch)
        } else {
            Ok(length - buffered)
        },
    }
}

/// Whether a response carries a body: not the response to a `HEAD`
/// request, and not one whose status code is informational, `204` or `304`.
pub fn response_carries_body(to_head_request: bool, status: u16) -> (carries: bool)
    ensures
        carries == !(to_head_request || status < 200 || status == 204 || status == 304),
{
    !(to_head_request || status < 200 || status == 204 || status == 304)
}

/// Where the handling of a client's connection stands.
#[derive(Clone, Copy, PartialEq, Eq, Structural, Debug)]
pub enum Connection {
    /// Nothing has been done yet.
    Accepted,
    /// An upstream server is being connected to.
    Connecting,
    /// The next request of the client is being read.
    Reading,
    /// An error response goes to the client, who may then send another request.
    Rejecting,
    /// The request goes to the upstream server.
    Forwarding,
    /// The response of the upstream server is being read.
    Awaiting,
    /// The response goes to the client.
    Relaying,
    /// A last error response goes to the client.
    Closing,
    /// The connection is done with.
    Closed,
}

/// What happened on a client's connection.
#[derive(Clone, Copy, PartialEq, Eq, Structural, Debug)]
pub enum Happened {
    /// The connection was accepted.
    Begin,
    UpstreamConnected,
    UpstreamUnavailable,
    RequestRead,
    RequestFailed(RequestError),
    Forwarded,
    ForwardFailed,
    ResponseRead,
    ResponseFailed,
    /// A response was written to the client, or the attempt was made.
    Sent,
}

/// What is to be done on a client's connection.
#[derive(Clone, Copy, PartialEq, Eq, Structural, Debug)]
pub enum Action {
    ConnectUpstream,
    ReadRequest,
    /// Answer the client with an error of this status code.
    SendError(u16),
    /// Name the client in the request and write it to the upstream server.
    Forward,
    ReadResponse,
    /// Write the upstream server's response to the client.
    Relay,
    Close,
}

/// The handling of a client's connection, one event at a time.
pub open spec fn transition(state: Connection, event: Happened) -> (Connection, Action) {
    match (state, event) {
        (Connection::Accepted, Happened::Begin) => (Connection::Connecting, Action::ConnectUpstream),
        (Connection::Connecting, Happened::UpstreamConnected) => (
            Connection::Reading,
            Action::ReadRequest,
        ),
        (Connection::Connecting, Happened::UpstreamUnavailable) => (
            Connection::Closing,
            Action::SendError(BAD_GATEWAY),
        ),
        (Connection::Reading, Happened::RequestRead) => (Connection::Forwarding, Action::Forward),
        (Connection::Reading, Happened::RequestFailed(error)) => if client_gone(error) {
            (Connection::Closed, Action::Close)
        } else {
            (Connection::Rejecting, Action::SendError(status_for(error)))
        },
        (Connection::Rejecting, Happened::Sent) => (Connection::Reading, Action::ReadRequest),
        (Connection::Forwarding, Happened::Forwarded) => (
            Connection::Awaiting,
            Action::ReadResponse,
        ),
        (Connection::Forwarding, Happened::ForwardFailed) => (
            Connection::Closing,
            Action::SendError(BAD_GATEWAY),
        ),
        (Connection::Awaiting, Happened::ResponseRead) => (Connection::Relaying, Action::Relay),
        (Connection::Awaiting, Happened::ResponseFailed) => (
            Connection::Closing,
            Action::SendError(BAD_GATEWAY),
        ),
        (Connection::Relaying, Happened::Sent) => (Connection::Reading, Action::ReadRequest),
        _ => (Connection::Closed, Action::Close),
    }
}

/// The status code for a request that could not be read.
pub fn error_status(error: RequestError) -> (status: u16)
    ensures
        status == status_for(error),
{
    match error {
        RequestError::RequestBodyTooLarge => PAYLOAD_TOO_LARGE,
        RequestError::ConnectionError => SERVICE_UNAVAILABLE,
        _ => BAD_REQUEST,
    }
}

/// Takes what happened on a connection and says what is to be done.
pub fn handle_connection(state: Connection, event: Happened) -> (next: (Connection, Action))
    ensures
        next == transition(state, event),
{
    match (state, event) {
        (Connection::Accepted, Happened::Begin) => (Connection::Connecting, Action::ConnectUpstream),
        (Connection::Connecting, Happened::UpstreamConnected) => (
            Connection::Reading,
            Action::ReadRequest,
        ),
        (Connection::Connecting, Happened::UpstreamUnavailable) => (
            Connection::Closing,
            Action::SendError(BAD_GATEWAY),
        ),
        (Connection::Reading, Happened::RequestRead) => (Connection::Forwarding, Action::Forward),
        (Connection::Reading, Happened::RequestFailed(error)) => {
            let gone = match error {
                RequestError::IncompleteRequest(read) => read == 0,
                RequestError::ConnectionError => true,
                _ => false,
            };
            if gone {
                (Connection::Closed, Action::Close)
            } else {
                (Connection::Rejecting, Action::SendError(error_status(error)))
            }
        },
        (Connection::Rejecting, Happened::Sent) => (Connection::Reading, Action::ReadRequest),
        (Connection::Forwarding, Happened::Forwarded) => (
            Connection::Awaiting,
            Action::ReadResponse,
        ),
        (Connection::Forwarding, Happened::ForwardFailed) => (
            Connection::Closing,
            Action::SendError(BAD_GATEWAY),
        ),
        (Connection::Awaiting, Happened::ResponseRead) => (Connection::Relaying, Action::Relay),
        (Connection::Awaiting, Happened::ResponseFailed) => (
            Connection::Closing,
            Action::SendError(BAD_GATEWAY),
        ),
        (Connection::Relaying, Happened::Sent) => (Connection::Reading, Action::ReadRequest),
        _ => (Connection::Closed, Action::Close),
    }
}

/// A request reaches the upstream server only after it was read in full,
/// and nothing is read from or written to a connection that is closed.
pub proof fn lemma_connection_discipline(state: Connection, event: Happened)
    ensures
        transition(state, event).1 == Action::Forward ==> state == Connection::Reading && event
            == Happened::RequestRead,
        transition(state, event).1 == Action::Relay ==> state == Connection::Awaiting && event
            == Happened::ResponseRead,
        state == Connection::Closed ==> transition(state, event) == (
            Connection::Closed,
            Action::Close,
        ),
        transition(state, event).1 == Action::Close <==> transition(state, event).0
            == Connection::Closed,
{
}

} // verus!
