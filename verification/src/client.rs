//! The client's side of a persistent connection: what to do next, given
//! what happened.
//!
//! A session starts by sending a handshake and waits for the answer. Once
//! accepted it serves one request at a time: write it, read the response,
//! hand the response to the caller. When no caller is left it drains the
//! stream and closes. The transport itself is driven from outside: it
//! reports each event to [`ClientSession::step`] and performs the action
//! that comes back.

use vstd::prelude::*;
use vstd::std_specs::convert::FromSpecImpl;
use bytes::BytesMut;
use crate::framing::{buffer_content, frame, write_length_prefixed, LengthReadError, ReadExactError};
use crate::handshake::{
    client_request_v1, parse_server_handshake, ClientHandshakeRequestV1, HandshakeError,
    ServerHandshake, VERSION,
};
use crate::icao::IcaoCode;

verus! {

/// The code with which a client resets its stream when it has no more requests.
pub const DRAIN_CODE: u64 = 1;

/// Why a stream failed.
#[derive(Debug, Clone, Copy, PartialEq, Eq)]
pub enum StreamError {
    /// The connection was lost.
    Connect,
    /// A frame could not be written.
    Write,
    /// A payload could not be read.
    Read,
    /// A length prefix could not be read in full.
    ReadExact(ReadExactError),
    /// Waiting for a reset of the stream failed.
    Reset,
    /// The peer reset the stream with this code.
    ResetByPeer(u64),
    /// A payload was no document of the expected shape.
    Json,
    /// A payload came in a chunk of another size than its prefix announced.
    LengthMismatch { expected: usize, received: usize },
    /// The stream ended where a payload should have started.
    StreamEnded,
}

impl From<LengthReadError> for StreamError {
    fn from(value: LengthReadError) -> (r: Self) {
        match value {
            LengthReadError::Json => StreamError::Json,
            LengthReadError::LengthMismatch { expected, received } => StreamError::LengthMismatch {
                expected,
                received,
            },
            LengthReadError::ReadExact(re) => StreamError::ReadExact(re),
            LengthReadError::Read => StreamError::Read,
            LengthReadError::StreamEnded => StreamError::StreamEnded,
        }
    }
}

impl FromSpecImpl<LengthReadError> for StreamError {
    open spec fn obeys_from_spec() -> bool {
        true
    }

    open spec fn from_spec(value: LengthReadError) -> Self {
        StreamError::of_read_error(value)
    }
}

impl StreamError {
    /// The failure of a stream that the failure to read a frame amounts to.
    pub open spec fn of_read_error(value: LengthReadError) -> Self {
        match value {
            LengthReadError::Json => StreamError::Json,
            LengthReadError::LengthMismatch { expected, received } => StreamError::LengthMismatch {
                expected,
                received,
            },
            LengthReadError::ReadExact(re) => StreamError::ReadExact(re),
            LengthReadError::Read => StreamError::Read,
            LengthReadError::StreamEnded => StreamError::StreamEnded,
        }
    }
}

/// Why no connection was established.
#[derive(Debug, Clone, Copy, PartialEq, Eq)]
pub enum ConnectError {
    /// The connection could not be started.
    Connect,
    /// The connection was lost while it was set up.
    Connection,
    /// The local endpoint could not be created.
    Creation,
    /// The server's answer to the handshake was not accepted.
    Handshake(HandshakeError),
    /// The handshake could not be exchanged.
    Write(StreamError),
}

/// What a client is doing with the request at hand.
#[derive(Debug, Clone, Copy, PartialEq, Eq)]
pub enum Exchange {
    /// No request is at hand.
    Idle,
    /// The request is being written.
    Writing,
    /// The response is being read.
    Reading,
}

/// Where a client's session stands.
#[derive(Debug, Clone, Copy, PartialEq, Eq)]
pub enum ClientState {
    /// The handshake was sent and not answered yet.
    Handshaking,
    /// The server accepted; requests are served one at a time.
    Running(Exchange),
    /// No caller is left; the stream is being wound down.
    Draining,
    /// The session is over.
    Closed,
}

/// What happened on the transport or at the queue of requests.
#[derive(Debug, Clone, Copy, PartialEq, Eq)]
pub enum ClientEvent<'a> {
    /// The handshake could not be written.
    HandshakeNotSent,
    /// The frame that answers the handshake was read, or could not be.
    HandshakeAnswered(Result<&'a [u8], LengthReadError>),
    /// A request was taken from the queue.
    Request,
    /// The queue is closed: every caller is gone.
    QueueClosed,
    /// The peer reset the stream with this code, or ended it without one.
    Reset(Option<u64>),
    /// Waiting for a reset failed.
    ResetFailed,
    /// The request was written, or could not be.
    Written(bool),
    /// The response was read and understood, or why not.
    Answered(Result<(), LengthReadError>),
    /// The peer has taken notice that the stream is over.
    Stopped,
}

/// What the transport is to do next.
#[derive(Debug, Clone, Copy, PartialEq, Eq)]
pub enum ClientAction {
    /// Wait for a request, the end of the queue or a reset.
    Await,
    /// Write the request that was taken from the queue.
    Write,
    /// Read the response to the request that was written.
    Read,
    /// Hand the response, or the reason why there is none, to the caller
    /// of the request, then wait again.
    Deliver(Result<(), StreamError>),
    /// Reset the stream with the code, finish it, drop the receiving side
    /// and wait until the peer has stopped.
    Drain(u64),
    /// Give up connecting.
    Refuse(ConnectError),
    /// End the task with this result.
    Finish(Result<(), StreamError>),
    /// The event means nothing where the session stands.
    Ignore,
}

/// What an event holds, the bytes of a frame taken as a sequence.
pub enum ClientEventView {
    HandshakeNotSent,
    HandshakeAnswered(Result<Seq<u8>, LengthReadError>),
    Request,
    QueueClosed,
    Reset(Option<u64>),
    ResetFailed,
    Written(bool),
    Answered(Result<(), LengthReadError>),
    Stopped,
}

impl<'a> View for ClientEvent<'a> {
    type V = ClientEventView;

    open spec fn view(&self) -> ClientEventView {
        match *self {
            ClientEvent::HandshakeNotSent => ClientEventView::HandshakeNotSent,
            ClientEvent::HandshakeAnswered(Ok(bytes)) => ClientEventView::HandshakeAnswered(
                Ok(bytes@),
            ),
            ClientEvent::HandshakeAnswered(Err(e)) => ClientEventView::HandshakeAnswered(Err(e)),
            ClientEvent::Request => ClientEventView::Request,
            ClientEvent::QueueClosed => ClientEventView::QueueClosed,
            ClientEvent::Reset(code) => ClientEventView::Reset(code),
            ClientEvent::ResetFailed => ClientEventView::ResetFailed,
            ClientEvent::Written(ok) => ClientEventView::Written(ok),
            ClientEvent::Answered(r) => ClientEventView::Answered(r),
            ClientEvent::Stopped => ClientEventView::Stopped,
        }
    }
}

/// The version that the server speaks, if its answer to the handshake
/// accepts the client. A refusal counts as a version that is not supported:
/// at version 1 nothing else is negotiated.
pub open spec fn accepted_version(response: Seq<u8>) -> Result<u16, HandshakeError> {
    match parse_server_handshake(VERSION, response) {
        Ok(accept) => if accept {
            Ok(1u16)
        } else {
            Err(HandshakeError::UnsupportedVersion { ours: VERSION, theirs: 1 })
        },
        Err(e) => Err(e),
    }
}

/// Where the session stands after an event, and what is to be done.
pub open spec fn next(state: ClientState, event: ClientEventView) -> (ClientState, ClientAction) {
    match (state, event) {
        (ClientState::Handshaking, ClientEventView::HandshakeNotSent) => (
            ClientState::Closed,
            ClientAction::Refuse(ConnectError::Write(StreamError::Write)),
        ),
        (ClientState::Handshaking, ClientEventView::HandshakeAnswered(Err(e))) => (
            ClientState::Closed,
            ClientAction::Refuse(ConnectError::Write(StreamError::of_read_error(e))),
        ),
        (ClientState::Handshaking, ClientEventView::HandshakeAnswered(Ok(bytes))) => {
            match accepted_version(bytes) {
                Ok(_) => (ClientState::Running(Exchange::Idle), ClientAction::Await),
                Err(e) => (ClientState::Closed, ClientAction::Refuse(ConnectError::Handshake(e))),
            }
        },
        (ClientState::Running(Exchange::Idle), ClientEventView::Request) => (
            ClientState::Running(Exchange::Writing),
            ClientAction::Write,
        ),
        (ClientState::Running(Exchange::Idle), ClientEventView::QueueClosed) => (
            ClientState::Draining,
            ClientAction::Drain(DRAIN_CODE),
        ),
        (ClientState::Running(Exchange::Idle), ClientEventView::Reset(code)) => (
            ClientState::Closed,
            ClientAction::Finish(
                match code {
                    Some(code) => Err(StreamError::ResetByPeer(code)),
                    None => Ok(()),
                },
            ),
        ),
        (ClientState::Running(Exchange::Idle), ClientEventView::ResetFailed) => (
            ClientState::Closed,
            ClientAction::Finish(Err(StreamError::Reset)),
        ),
        (ClientState::Running(Exchange::Writing), ClientEventView::Written(ok)) => if ok {
            (ClientState::Running(Exchange::Reading), ClientAction::Read)
        } else {
            (ClientState::Closed, ClientAction::Finish(Err(StreamError::Write)))
        },
        (ClientState::Running(Exchange::Reading), ClientEventView::Answered(r)) => (
            ClientState::Running(Exchange::Idle),
            ClientAction::Deliver(
                match r {
                    Ok(()) => Ok(()),
                    Err(e) => Err(StreamError::of_read_error(e)),
                },
            ),
        ),
        (ClientState::Draining, ClientEventView::Stopped) => (
            ClientState::Closed,
            ClientAction::Finish(Ok(())),
        ),
        _ => (state, ClientAction::Ignore),
    }
}

/// The client's side of one connection.
#[derive(Debug, Clone, Copy, PartialEq, Eq)]
pub struct ClientSession {
    pub state: ClientState,
}

impl ClientSession {
    /// Starts a session: the frame to send first holds the handshake with
    /// the client's probe port and region.
    pub fn open(probe_port: u16, icao: IcaoCode) -> (r: (Self, BytesMut))
        ensures
            r.0.state == ClientState::Handshaking,
            buffer_content(r.1) == frame(client_request_v1(probe_port, icao@)),
    {
        let req = ClientHandshakeRequestV1 { qcmp_port: probe_port, icao }.write();
        (ClientSession { state: ClientState::Handshaking }, write_length_prefixed(req.as_slice()))
    }

    /// Reads the server's answer to the handshake: the version to go on with.
    pub fn read_answer(response: &[u8]) -> (r: Result<u16, HandshakeError>)
        ensures
            r == accepted_version(response@),
    {
        match ServerHandshake::read(VERSION, response) {
            Ok(ServerHandshake::V1(shs)) => {
                if !shs.accept {
                    return Err(HandshakeError::UnsupportedVersion { ours: VERSION, theirs: 1 });
                }
                Ok(1)
            },
            Err(e) => Err(e),
        }
    }

    /// Takes note of an event and tells what is to be done.
    pub fn step(&mut self, event: ClientEvent<'_>) -> (action: ClientAction)
        ensures
            (final(self).state, action) == next(old(self).state, event@),
    {
        let (state, action) = match (self.state, event) {
            (ClientState::Handshaking, ClientEvent::HandshakeNotSent) => (
                ClientState::Closed,
                ClientAction::Refuse(ConnectError::Write(StreamError::Write)),
            ),
            (ClientState::Handshaking, ClientEvent::HandshakeAnswered(Err(e))) => (
                ClientState::Closed,
                ClientAction::Refuse(ConnectError::Write(StreamError::from(e))),
            ),
            (ClientState::Handshaking, ClientEvent::HandshakeAnswered(Ok(bytes))) => {
                match Self::read_answer(bytes) {
                    Ok(_) => (ClientState::Running(Exchange::Idle), ClientAction::Await),
                    Err(e) => (
                        ClientState::Closed,
                        ClientAction::Refuse(ConnectError::Handshake(e)),
                    ),
                }
            },
            (ClientState::Running(Exchange::Idle), ClientEvent::Request) => (
                ClientState::Running(Exchange::Writing),
                ClientAction::Write,
            ),
            (ClientState::Running(Exchange::Idle), ClientEvent::QueueClosed) => (
                ClientState::Draining,
                ClientAction::Drain(DRAIN_CODE),
            ),
            (ClientState::Running(Exchange::Idle), ClientEvent::Reset(code)) => (
                ClientState::Closed,
                ClientAction::Finish(
                    match code {
                        Some(code) => Err(StreamError::ResetByPeer(code)),
                        None => Ok(()),
                    },
                ),
            ),
            (ClientState::Running(Exchange::Idle), ClientEvent::ResetFailed) => (
                ClientState::Closed,
                ClientAction::Finish(Err(StreamError::Reset)),
            ),
            (ClientState::Running(Exchange::Writing), ClientEvent::Written(ok)) => {
                if ok {
                    (ClientState::Running(Exchange::Reading), ClientAction::Read)
                } else {
                    (ClientState::Closed, ClientAction::Finish(Err(StreamError::Write)))
                }
            },
            (ClientState::Running(Exchange::Reading), ClientEvent::Answered(r)) => (
                ClientState::Running(Exchange::Idle),
                ClientAction::Deliver(
                    match r {
                        Ok(()) => Ok(()),
                        Err(e) => Err(StreamError::from(e)),
                    },
                ),
            ),
            (ClientState::Draining, ClientEvent::Stopped) => (
                ClientState::Closed,
                ClientAction::Finish(Ok(())),
            ),
            (state, _) => (state, ClientAction::Ignore),
        };
        self.state = state;
        action
    }
}

/// Where a session stands after the given events, from its start, and the
/// actions that it asked for, one for each event.
pub open spec fn run(events: Seq<ClientEventView>) -> (ClientState, Seq<ClientAction>)
    decreases events.len(),
{
    if events.len() == 0 {
        (ClientState::Handshaking, Seq::empty())
    } else {
        let (state, actions) = run(events.drop_last());
        let (state, action) = next(state, events.last());
        (state, actions.push(action))
    }
}

/// The number of requests that were written and whose callers got no answer yet.
pub open spec fn unanswered(actions: Seq<ClientAction>) -> int
    decreases actions.len(),
{
    if actions.len() == 0 {
        0
    } else {
        unanswered(actions.drop_last()) + (match actions.last() {
            ClientAction::Write => 1int,
            ClientAction::Deliver(_) => -1int,
            _ => 0int,
        })
    }
}

/// Requests and responses are strictly serialized: whatever happens, at most
/// one request is written and not answered, and none while the session
/// waits for the handshake, for work, or for the end of draining.
pub proof fn lemma_one_request_at_a_time(events: Seq<ClientEventView>)
    ensures
        0 <= unanswered(run(events).1) <= 1,
        match run(events).0 {
            ClientState::Running(Exchange::Writing) | ClientState::Running(Exchange::Reading) => {
                unanswered(run(events).1) == 1
            },
            ClientState::Closed => true,
            _ => unanswered(run(events).1) == 0,
        },
        run(events).1.len() == events.len(),
    decreases events.len(),
{
    if events.len() > 0 {
        lemma_one_request_at_a_time(events.drop_last());
        let (state, actions) = run(events.drop_last());
        let (after, action) = next(state, events.last());
        assert(actions.push(action).drop_last() =~= actions);
    }
}

/// A closed session stays closed and asks for nothing more.
pub proof fn lemma_closed_is_final(event: ClientEventView)
    ensures
        next(ClientState::Closed, event) == (ClientState::Closed, ClientAction::Ignore),
{
}

} // verus!
