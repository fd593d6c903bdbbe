//! The server's side of a persistent connection: what to do next, given
//! what happened.
//!
//! A session reads the client's handshake, answers it, and then serves the
//! client: read a batch of changes, have it executed, write the result. The
//! executor hears of a client once its handshake is complete, and hears
//! exactly once that the client is gone. The transport and the executor are
//! driven from outside: each event is reported to [`ServerSession::step`],
//! and the action that comes back is performed.

use vstd::prelude::*;
use bytes::BytesMut;
use crate::error_code::{ErrorCode, IoLoopError};
use crate::framing::{buffer_content, frame, write_length_prefixed, LengthReadError};
use crate::handshake::{
    parse_client_handshake, server_response_v1, ClientHandshake, ServerHandshakeResponseV1,
    VERSION,
};
use crate::icao::IcaoCode;

verus! {

/// What is to be done with a connection that comes in.
#[derive(Debug, Clone, Copy, PartialEq, Eq)]
pub enum Admission {
    /// The client's address is not validated yet: have it try again.
    Retry,
    /// Accept the connection and start a session.
    Accept,
}

/// Decides on a connection that comes in: only clients whose address the
/// transport has validated are accepted.
pub fn admission(address_validated: bool) -> (r: Admission)
    ensures
        r == (if address_validated {
            Admission::Accept
        } else {
            Admission::Retry
        }),
{
    if address_validated {
        Admission::Accept
    } else {
        Admission::Retry
    }
}

/// What a server is doing for its client.
#[derive(Debug, Clone, Copy, PartialEq, Eq)]
pub enum Service {
    /// A batch of changes is being read.
    Reading,
    /// The batch is being executed.
    Executing,
    /// The result is being written.
    Writing,
}

/// Where a server's session stands.
#[derive(Debug, Clone, Copy, PartialEq, Eq)]
pub enum ServerState {
    /// The client's handshake is being read.
    Handshaking,
    /// The handshake was accepted; the answer is being written.
    Responding { qcmp_port: u16, icao: IcaoCode },
    /// The client is being served.
    Running(Service),
    /// The stream is being closed.
    Closing,
    /// The session is over.
    Closed,
}

/// What happened on the transport or at the executor.
#[derive(Debug, Clone, Copy, PartialEq, Eq)]
pub enum ServerEvent<'a> {
    /// The frame with the client's handshake was read, or could not be.
    HandshakeRead(Result<&'a [u8], LengthReadError>),
    /// The answer to the handshake was written, or could not be.
    Responded(bool),
    /// A batch of changes was read and understood, or why not.
    RequestRead(Result<(), LengthReadError>),
    /// The batch was executed; the result was made a frame, or could not be.
    Executed(bool),
    /// The result was written, or could not be.
    Written(bool),
    /// The client has taken notice that the stream is over.
    Stopped,
}

/// What the transport or the executor is to do next.
#[derive(Debug, Clone, Copy, PartialEq, Eq)]
pub enum ServerAction {
    /// Write the answer that accepts the client.
    Respond,
    /// Tell the executor that the client is connected, then read a batch.
    Connected { qcmp_port: u16, icao: IcaoCode },
    /// Read the next batch.
    Read,
    /// Have the batch executed and make a frame of the result.
    Execute,
    /// Write the frame of the result.
    Write,
    /// Close the stream with this code: finish it, reset it with the code,
    /// drop the receiving side and wait until the client has stopped.
    Close(ErrorCode),
    /// Tell the executor that the client is gone, then close the stream
    /// with this code.
    Disconnect(ErrorCode),
    /// Drop the connection; the client never was connected.
    Abandon,
    /// Nothing is left to do.
    Done,
    /// The event means nothing where the session stands.
    Ignore,
}

/// What a state holds, the region code taken as its letters.
pub enum ServerStateView {
    Handshaking,
    Responding { qcmp_port: u16, icao: Seq<u8> },
    Running(Service),
    Closing,
    Closed,
}

/// What an event holds, the bytes of a frame taken as a sequence.
pub enum ServerEventView {
    HandshakeRead(Result<Seq<u8>, LengthReadError>),
    Responded(bool),
    RequestRead(Result<(), LengthReadError>),
    Executed(bool),
    Written(bool),
    Stopped,
}

/// What an action holds, the region code taken as its letters.
pub enum ServerActionView {
    Respond,
    Connected { qcmp_port: u16, icao: Seq<u8> },
    Read,
    Execute,
    Write,
    Close(ErrorCode),
    Disconnect(ErrorCode),
    Abandon,
    Done,
    Ignore,
}

impl View for ServerState {
    type V = ServerStateView;

    open spec fn view(&self) -> ServerStateView {
        match *self {
            ServerState::Handshaking => ServerStateView::Handshaking,
            ServerState::Responding { qcmp_port, icao } => ServerStateView::Responding {
                qcmp_port,
                icao: icao@,
            },
            ServerState::Running(service) => ServerStateView::Running(service),
            ServerState::Closing => ServerStateView::Closing,
            ServerState::Closed => ServerStateView::Closed,
        }
    }
}

impl<'a> View for ServerEvent<'a> {
    type V = ServerEventView;

    open spec fn view(&self) -> ServerEventView {
        match *self {
            ServerEvent::HandshakeRead(Ok(bytes)) => ServerEventView::HandshakeRead(Ok(bytes@)),
            ServerEvent::HandshakeRead(Err(e)) => ServerEventView::HandshakeRead(Err(e)),
            ServerEvent::Responded(ok) => ServerEventView::Responded(ok),
            ServerEvent::RequestRead(r) => ServerEventView::RequestRead(r),
            ServerEvent::Executed(ok) => ServerEventView::Executed(ok),
            ServerEvent::Written(ok) => ServerEventView::Written(ok),
            ServerEvent::Stopped => ServerEventView::Stopped,
        }
    }
}

impl View for ServerAction {
    type V = ServerActionView;

    open spec fn view(&self) -> ServerActionView {
        match *self {
            ServerAction::Respond => ServerActionView::Respond,
            ServerAction::Connected { qcmp_port, icao } => ServerActionView::Connected {
                qcmp_port,
                icao: icao@,
            },
            ServerAction::Read => ServerActionView::Read,
            ServerAction::Execute => ServerActionView::Execute,
            ServerAction::Write => ServerActionView::Write,
            ServerAction::Close(code) => ServerActionView::Close(code),
            ServerAction::Disconnect(code) => ServerActionView::Disconnect(code),
            ServerAction::Abandon => ServerActionView::Abandon,
            ServerAction::Done => ServerActionView::Done,
            ServerAction::Ignore => ServerActionView::Ignore,
        }
    }
}

/// The code with which the loop that serves a client ends.
pub open spec fn exit_code(outcome: Result<(), IoLoopError>) -> ErrorCode {
    match outcome {
        Ok(()) => ErrorCode::Success,
        Err(e) => ErrorCode::of_loop_error(e),
    }
}

/// Where the session stands after an event, and what is to be done.
pub open spec fn next(state: ServerStateView, event: ServerEventView) -> (
    ServerStateView,
    ServerActionView,
) {
    match (state, event) {
        (ServerStateView::Handshaking, ServerEventView::HandshakeRead(Err(e))) => (
            ServerStateView::Closing,
            ServerActionView::Close(ErrorCode::of_read_error(e)),
        ),
        (ServerStateView::Handshaking, ServerEventView::HandshakeRead(Ok(bytes))) => {
            match parse_client_handshake(VERSION, bytes) {
                Ok((_, qcmp_port, icao)) => (
                    ServerStateView::Responding { qcmp_port, icao },
                    ServerActionView::Respond,
                ),
                Err(e) => (
                    ServerStateView::Closing,
                    ServerActionView::Close(ErrorCode::of_handshake_error(e)),
                ),
            }
        },
        (ServerStateView::Responding { qcmp_port, icao }, ServerEventView::Responded(ok)) => if ok {
            (
                ServerStateView::Running(Service::Reading),
                ServerActionView::Connected { qcmp_port, icao },
            )
        } else {
            (ServerStateView::Closed, ServerActionView::Abandon)
        },
        (ServerStateView::Running(Service::Reading), ServerEventView::RequestRead(Ok(()))) => (
            ServerStateView::Running(Service::Executing),
            ServerActionView::Execute,
        ),
        (ServerStateView::Running(Service::Reading), ServerEventView::RequestRead(Err(e))) => (
            ServerStateView::Closing,
            ServerActionView::Disconnect(exit_code(Err(IoLoopError::Read(e)))),
        ),
        (ServerStateView::Running(Service::Executing), ServerEventView::Executed(ok)) => if ok {
            (ServerStateView::Running(Service::Writing), ServerActionView::Write)
        } else {
            (
                ServerStateView::Closing,
                ServerActionView::Disconnect(exit_code(Err(IoLoopError::Jsonb))),
            )
        },
        (ServerStateView::Running(Service::Writing), ServerEventView::Written(ok)) => if ok {
            (ServerStateView::Running(Service::Reading), ServerActionView::Read)
        } else {
            (
                ServerStateView::Closing,
                ServerActionView::Disconnect(exit_code(Err(IoLoopError::Write))),
            )
        },
        (ServerStateView::Closing, ServerEventView::Stopped) => (
            ServerStateView::Closed,
            ServerActionView::Done,
        ),
        _ => (state, ServerActionView::Ignore),
    }
}

/// The server's side of one connection.
#[derive(Debug, Clone, Copy, PartialEq, Eq)]
pub struct ServerSession {
    pub state: ServerState,
}

impl ServerSession {
    /// A session for a connection that was accepted.
    pub fn new() -> (r: Self)
        ensures
            r.state@ == ServerStateView::Handshaking,
    {
        ServerSession { state: ServerState::Handshaking }
    }

    /// The frame that answers a handshake and accepts the client.
    pub fn answer() -> (r: BytesMut)
        ensures
            buffer_content(r) == frame(server_response_v1(true)),
    {
        let hs = ServerHandshakeResponseV1 { accept: true }.write();
        write_length_prefixed(hs.as_slice())
    }

    /// The code with which the loop that serves a client ends.
    pub fn exit_code(outcome: Result<(), IoLoopError>) -> (r: ErrorCode)
        ensures
            r == exit_code(outcome),
    {
        match outcome {
            Ok(()) => ErrorCode::Success,
            Err(e) => ErrorCode::from_loop_error(e),
        }
    }

    /// Takes note of an event and tells what is to be done.
    pub fn step(&mut self, event: ServerEvent<'_>) -> (action: ServerAction)
        ensures
            (final(self).state@, action@) == next(old(self).state@, event@),
    {
        let (state, action) = match (self.state, event) {
            (ServerState::Handshaking, ServerEvent::HandshakeRead(Err(e))) => (
                ServerState::Closing,
                ServerAction::Close(ErrorCode::from_read_error(&e)),
            ),
            (ServerState::Handshaking, ServerEvent::HandshakeRead(Ok(bytes))) => {
                match ClientHandshake::read(VERSION, bytes) {
                    Ok((_, info)) => {
                        let (qcmp_port, icao) = info.client_details();
                        (ServerState::Responding { qcmp_port, icao }, ServerAction::Respond)
                    },
                    Err(e) => (
                        ServerState::Closing,
                        ServerAction::Close(ErrorCode::from_handshake_error(&e)),
                    ),
                }
            },
            (ServerState::Responding { qcmp_port, icao }, ServerEvent::Responded(ok)) => {
                if ok {
                    (
                        ServerState::Running(Service::Reading),
                        ServerAction::Connected { qcmp_port, icao },
                    )
                } else {
                    (ServerState::Closed, ServerAction::Abandon)
                }
            },
            (ServerState::Running(Service::Reading), ServerEvent::RequestRead(Ok(()))) => (
                ServerState::Running(Service::Executing),
                ServerAction::Execute,
            ),
            (ServerState::Running(Service::Reading), ServerEvent::RequestRead(Err(e))) => (
                ServerState::Closing,
                ServerAction::Disconnect(Self::exit_code(Err(IoLoopError::Read(e)))),
            ),
            (ServerState::Running(Service::Executing), ServerEvent::Executed(ok)) => {
                if ok {
                    (ServerState::Running(Service::Writing), ServerAction::Write)
                } else {
                    (
                        ServerState::Closing,
                        ServerAction::Disconnect(Self::exit_code(Err(IoLoopError::Jsonb))),
                    )
                }
            },
            (ServerState::Running(Service::Writing), ServerEvent::Written(ok)) => {
                if ok {
                    (ServerState::Running(Service::Reading), ServerAction::Read)
                } else {
                    (
                        ServerState::Closing,
                        ServerAction::Disconnect(Self::exit_code(Err(IoLoopError::Write))),
                    )
                }
            },
            (ServerState::Closing, ServerEvent::Stopped) => (
                ServerState::Closed,
                ServerAction::Done,
            ),
            (state, _) => (state, ServerAction::Ignore),
        };
        self.state = state;
        action
    }
}

/// Where a session stands after the given events, from its start, and the
/// actions that it asked for, one for each event.
pub open spec fn run(events: Seq<ServerEventView>) -> (ServerStateView, Seq<ServerActionView>)
    decreases events.len(),
{
    if events.len() == 0 {
        (ServerStateView::Handshaking, Seq::empty())
    } else {
        let (state, actions) = run(events.drop_last());
        let (state, action) = next(state, events.last());
        (state, actions.push(action))
    }
}

/// How often the executor was told that the client is connected.
pub open spec fn connects(actions: Seq<ServerActionView>) -> nat
    decreases actions.len(),
{
    if actions.len() == 0 {
        0
    } else {
        connects(actions.drop_last()) + (match actions.last() {
            ServerActionView::Connected { .. } => 1nat,
            _ => 0nat,
        })
    }
}

/// How often the executor was told that the client is gone.
pub open spec fn disconnects(actions: Seq<ServerActionView>) -> nat
    decreases actions.len(),
{
    if actions.len() == 0 {
        0
    } else {
        disconnects(actions.drop_last()) + (match actions.last() {
            ServerActionView::Disconnect(_) => 1nat,
            _ => 0nat,
        })
    }
}

/// The executor hears at most once that a client is connected, only after
/// the handshake is complete, and exactly once that a connected client is
/// gone: not while the client is served, and not again once the stream is
/// being closed.
pub proof fn lemma_disconnected_once(events: Seq<ServerEventView>)
    ensures
        connects(run(events).1) <= 1,
        match run(events).0 {
            ServerStateView::Handshaking | ServerStateView::Responding { .. } => connects(
                run(events).1,
            ) == 0 && disconnects(run(events).1) == 0,
            ServerStateView::Running(_) => connects(run(events).1) == 1 && disconnects(
                run(events).1,
            ) == 0,
            ServerStateView::Closing | ServerStateView::Closed => disconnects(run(events).1)
                == connects(run(events).1),
        },
    decreases events.len(),
{
    if events.len() > 0 {
        lemma_disconnected_once(events.drop_last());
        let (state, actions) = run(events.drop_last());
        let (after, action) = next(state, events.last());
        assert(actions.push(action).drop_last() =~= actions);
    }
}

/// A closed session stays closed and asks for nothing more.
pub proof fn lemma_closed_is_final(event: ServerEventView)
    ensures
        next(ServerStateView::Closed, event) == (ServerStateView::Closed, ServerActionView::Ignore),
{
}

} // verus!
