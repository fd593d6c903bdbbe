use corrosion::client::{
    ClientAction, ClientEvent, ClientSession, ClientState, ConnectError, Exchange, StreamError,
    DRAIN_CODE,
};
use corrosion::error_code::{ErrorCode, IoLoopError};
use corrosion::framing::{read_length_prefixed, LengthReadError, ReadExactError};
use corrosion::handshake::{
    ClientHandshakeRequestV1, HandshakeError, ServerHandshakeResponseV1,
};
use corrosion::icao::IcaoCode;
use corrosion::server::{
    admission, Admission, ServerAction, ServerEvent, ServerSession, ServerState, Service,
};

fn icao() -> IcaoCode {
    IcaoCode::new_testing([b'H'; 4])
}

#[test]
fn handshake_between_client_and_server() {
    let (mut client, request) = ClientSession::open(8998, icao());
    assert_eq!(client.state, ClientState::Handshaking);

    let mut server = ServerSession::new();
    let request = read_length_prefixed(&request).unwrap();
    assert_eq!(
        server.step(ServerEvent::HandshakeRead(Ok(request))),
        ServerAction::Respond
    );
    let answer = ServerSession::answer();
    assert_eq!(&answer[..], &[7, 0, 0x1a, 0xcc, 0xca, 0xf0, 1, 0, 1]);
    assert_eq!(
        server.step(ServerEvent::Responded(true)),
        ServerAction::Connected {
            qcmp_port: 8998,
            icao: icao()
        }
    );
    assert_eq!(server.state, ServerState::Running(Service::Reading));

    let answer = read_length_prefixed(&answer).unwrap();
    assert_eq!(ClientSession::read_answer(answer), Ok(1));
    assert_eq!(
        client.step(ClientEvent::HandshakeAnswered(Ok(answer))),
        ClientAction::Await
    );
    assert_eq!(client.state, ClientState::Running(Exchange::Idle));
}

#[test]
fn malformed_magic_closes_with_bad_handshake() {
    let mut request = ClientHandshakeRequestV1 {
        qcmp_port: 8998,
        icao: icao(),
    }
    .write();
    request[3] ^= 1;
    let mut server = ServerSession::new();
    assert_eq!(
        server.step(ServerEvent::HandshakeRead(Ok(&request))),
        ServerAction::Close(ErrorCode::BadHandshake)
    );
    assert_eq!(ErrorCode::BadHandshake.code(), 402);
    assert_eq!(server.state, ServerState::Closing);
    assert_eq!(server.step(ServerEvent::Stopped), ServerAction::Done);
    assert_eq!(server.state, ServerState::Closed);
    assert_eq!(server.step(ServerEvent::Stopped), ServerAction::Ignore);
}

#[test]
fn server_refuses_faulty_handshakes() {
    let request = ClientHandshakeRequestV1 {
        qcmp_port: 8998,
        icao: icao(),
    }
    .write();
    let close = |bytes: &[u8]| ServerSession::new().step(ServerEvent::HandshakeRead(Ok(bytes)));

    let mut other_version = request;
    other_version[4] = 2;
    assert_eq!(
        close(&other_version),
        ServerAction::Close(ErrorCode::VersionNotSupported)
    );
    assert_eq!(close(&request[..9]), ServerAction::Close(ErrorCode::LengthRequired));
    assert_eq!(close(&request[..5]), ServerAction::Close(ErrorCode::LengthRequired));
    let mut lower_case = request;
    lower_case[9] = b'h';
    assert_eq!(close(&lower_case), ServerAction::Close(ErrorCode::BadHandshake));
    assert_eq!(
        ServerSession::new().step(ServerEvent::HandshakeRead(Err(
            LengthReadError::ReadExact(ReadExactError::FinishedEarly(1))
        ))),
        ServerAction::Close(ErrorCode::LengthRequired)
    );
    assert_eq!(
        ServerSession::new().step(ServerEvent::HandshakeRead(Err(LengthReadError::StreamEnded))),
        ServerAction::Close(ErrorCode::ClientClosed)
    );
}

#[test]
fn client_refuses_faulty_answers() {
    let refuse = |bytes: &[u8]| {
        let (mut client, _) = ClientSession::open(1, icao());
        let action = client.step(ClientEvent::HandshakeAnswered(Ok(bytes)));
        assert_eq!(client.state, ClientState::Closed);
        action
    };
    let refusal = ServerHandshakeResponseV1 { accept: false }.write();
    assert_eq!(
        refuse(&refusal),
        ClientAction::Refuse(ConnectError::Handshake(HandshakeError::UnsupportedVersion {
            ours: 1,
            theirs: 1
        }))
    );
    let mut answer = ServerHandshakeResponseV1 { accept: true }.write();
    answer[6] = 2;
    assert_eq!(
        refuse(&answer),
        ClientAction::Refuse(ConnectError::Handshake(HandshakeError::InvalidResponse))
    );
    answer[4] = 9;
    assert_eq!(
        refuse(&answer),
        ClientAction::Refuse(ConnectError::Handshake(HandshakeError::UnsupportedVersion {
            ours: 1,
            theirs: 9
        }))
    );
    assert_eq!(
        refuse(&answer[..6]),
        ClientAction::Refuse(ConnectError::Handshake(HandshakeError::UnsupportedVersion {
            ours: 1,
            theirs: 9
        }))
    );
    answer[4] = 1;
    assert_eq!(
        refuse(&answer[..6]),
        ClientAction::Refuse(ConnectError::Handshake(HandshakeError::InsufficientLength {
            length: 0,
            expected: 1
        }))
    );
    assert_eq!(
        refuse(&[0; 7]),
        ClientAction::Refuse(ConnectError::Handshake(HandshakeError::InvalidMagic))
    );

    let (mut client, _) = ClientSession::open(1, icao());
    assert_eq!(
        client.step(ClientEvent::HandshakeAnswered(Err(LengthReadError::StreamEnded))),
        ClientAction::Refuse(ConnectError::Write(StreamError::StreamEnded))
    );
    let (mut client, _) = ClientSession::open(1, icao());
    assert_eq!(
        client.step(ClientEvent::HandshakeNotSent),
        ClientAction::Refuse(ConnectError::Write(StreamError::Write))
    );
}

fn running_client() -> ClientSession {
    let (mut client, _) = ClientSession::open(1, icao());
    let answer = ServerHandshakeResponseV1 { accept: true }.write();
    client.step(ClientEvent::HandshakeAnswered(Ok(&answer)));
    client
}

#[test]
fn client_serves_one_request_at_a_time() {
    let mut client = running_client();
    for _ in 0..3 {
        assert_eq!(client.step(ClientEvent::Request), ClientAction::Write);
        // A second request has to wait
        assert_eq!(client.step(ClientEvent::Request), ClientAction::Ignore);
        assert_eq!(client.step(ClientEvent::QueueClosed), ClientAction::Ignore);
        assert_eq!(client.step(ClientEvent::Written(true)), ClientAction::Read);
        assert_eq!(client.step(ClientEvent::Request), ClientAction::Ignore);
        assert_eq!(
            client.step(ClientEvent::Answered(Ok(()))),
            ClientAction::Deliver(Ok(()))
        );
        assert_eq!(client.state, ClientState::Running(Exchange::Idle));
    }
}

#[test]
fn client_goes_on_after_a_response_that_could_not_be_read() {
    let mut client = running_client();
    client.step(ClientEvent::Request);
    client.step(ClientEvent::Written(true));
    assert_eq!(
        client.step(ClientEvent::Answered(Err(LengthReadError::LengthMismatch {
            expected: 4,
            received: 2
        }))),
        ClientAction::Deliver(Err(StreamError::LengthMismatch {
            expected: 4,
            received: 2
        }))
    );
    assert_eq!(client.step(ClientEvent::Request), ClientAction::Write);
}

#[test]
fn client_drains_when_the_queue_is_closed() {
    let mut client = running_client();
    assert_eq!(
        client.step(ClientEvent::QueueClosed),
        ClientAction::Drain(DRAIN_CODE)
    );
    assert_eq!(DRAIN_CODE, 1);
    assert_eq!(client.state, ClientState::Draining);
    assert_eq!(client.step(ClientEvent::Request), ClientAction::Ignore);
    assert_eq!(client.step(ClientEvent::Stopped), ClientAction::Finish(Ok(())));
    assert_eq!(client.state, ClientState::Closed);
    assert_eq!(client.step(ClientEvent::Request), ClientAction::Ignore);
    assert_eq!(client.state, ClientState::Closed);
}

#[test]
fn client_ends_on_a_reset_or_a_failed_write() {
    let mut client = running_client();
    assert_eq!(
        client.step(ClientEvent::Reset(Some(499))),
        ClientAction::Finish(Err(StreamError::ResetByPeer(499)))
    );
    assert_eq!(client.state, ClientState::Closed);
    assert_eq!(ErrorCode::from_code(499), ErrorCode::ClientClosed);

    let mut client = running_client();
    assert_eq!(
        client.step(ClientEvent::Reset(None)),
        ClientAction::Finish(Ok(()))
    );
    assert_eq!(client.state, ClientState::Closed);

    let mut client = running_client();
    assert_eq!(
        client.step(ClientEvent::ResetFailed),
        ClientAction::Finish(Err(StreamError::Reset))
    );

    let mut client = running_client();
    client.step(ClientEvent::Request);
    assert_eq!(
        client.step(ClientEvent::Written(false)),
        ClientAction::Finish(Err(StreamError::Write))
    );
    assert_eq!(client.state, ClientState::Closed);
}

#[test]
fn read_errors_as_stream_errors() {
    assert_eq!(StreamError::from(LengthReadError::Json), StreamError::Json);
    assert_eq!(StreamError::from(LengthReadError::Read), StreamError::Read);
    assert_eq!(
        StreamError::from(LengthReadError::StreamEnded),
        StreamError::StreamEnded
    );
    assert_eq!(
        StreamError::from(LengthReadError::ReadExact(ReadExactError::ReadError)),
        StreamError::ReadExact(ReadExactError::ReadError)
    );
    assert_eq!(
        StreamError::from(LengthReadError::LengthMismatch {
            expected: 1,
            received: 2
        }),
        StreamError::LengthMismatch {
            expected: 1,
            received: 2
        }
    );
}

fn running_server() -> ServerSession {
    let request = ClientHandshakeRequestV1 {
        qcmp_port: 2001,
        icao: icao(),
    }
    .write();
    let mut server = ServerSession::new();
    server.step(ServerEvent::HandshakeRead(Ok(&request)));
    server.step(ServerEvent::Responded(true));
    server
}

#[test]
fn server_serves_batches_in_turn() {
    let mut server = running_server();
    for _ in 0..3 {
        assert_eq!(
            server.step(ServerEvent::RequestRead(Ok(()))),
            ServerAction::Execute
        );
        assert_eq!(server.step(ServerEvent::Executed(true)), ServerAction::Write);
        assert_eq!(server.step(ServerEvent::Written(true)), ServerAction::Read);
    }
    assert_eq!(server.state, ServerState::Running(Service::Reading));
}

#[test]
fn server_tells_the_executor_once_that_the_client_is_gone() {
    let mut server = running_server();
    assert_eq!(
        server.step(ServerEvent::RequestRead(Err(LengthReadError::StreamEnded))),
        ServerAction::Disconnect(ErrorCode::ClientClosed)
    );
    assert_eq!(
        server.step(ServerEvent::RequestRead(Err(LengthReadError::StreamEnded))),
        ServerAction::Ignore
    );
    assert_eq!(server.step(ServerEvent::Written(false)), ServerAction::Ignore);
    assert_eq!(server.step(ServerEvent::Stopped), ServerAction::Done);

    let mut server = running_server();
    assert_eq!(
        server.step(ServerEvent::RequestRead(Err(LengthReadError::Json))),
        ServerAction::Disconnect(ErrorCode::BadRequest)
    );

    let mut server = running_server();
    server.step(ServerEvent::RequestRead(Ok(())));
    assert_eq!(
        server.step(ServerEvent::Executed(false)),
        ServerAction::Disconnect(ErrorCode::InternalServerError)
    );

    let mut server = running_server();
    server.step(ServerEvent::RequestRead(Ok(())));
    server.step(ServerEvent::Executed(true));
    assert_eq!(
        server.step(ServerEvent::Written(false)),
        ServerAction::Disconnect(ErrorCode::ClientClosed)
    );
}

#[test]
fn server_abandons_a_client_that_takes_no_answer() {
    let request = ClientHandshakeRequestV1 {
        qcmp_port: 2001,
        icao: icao(),
    }
    .write();
    let mut server = ServerSession::new();
    server.step(ServerEvent::HandshakeRead(Ok(&request)));
    assert_eq!(server.step(ServerEvent::Responded(false)), ServerAction::Abandon);
    assert_eq!(server.state, ServerState::Closed);
}

#[test]
fn exit_codes() {
    assert_eq!(ServerSession::exit_code(Ok(())), ErrorCode::Success);
    assert_eq!(
        ServerSession::exit_code(Err(IoLoopError::Jsonb)),
        ErrorCode::InternalServerError
    );
    assert_eq!(admission(true), Admission::Accept);
    assert_eq!(admission(false), Admission::Retry);
}
