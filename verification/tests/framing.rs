use corrosion::error_code::{ErrorCode, IoLoopError};
use corrosion::framing::{
    check_chunk, frame_length, read_length_prefixed, update_length_prefix, write_length_prefixed,
    LengthReadError, ReadExactError,
};
use corrosion::handshake::HandshakeError;
use corrosion::icao::IcaoError;

#[test]
fn frame_is_length_then_payload() {
    assert_eq!(&write_length_prefixed(b"abc")[..], &[3, 0, b'a', b'b', b'c']);
    assert_eq!(&write_length_prefixed(b"")[..], &[0, 0]);
    let payload = vec![7u8; 0x1234];
    let frame = write_length_prefixed(&payload);
    assert_eq!(&frame[..2], &[0x34, 0x12]);
    assert_eq!(&frame[2..], &payload[..]);
}

#[test]
fn frame_round_trip() {
    for n in [0usize, 1, 2, 255, 256, 65535] {
        let payload: Vec<u8> = (0..n).map(|i| i as u8).collect();
        let frame = write_length_prefixed(&payload);
        assert_eq!(frame.len(), n + 2);
        assert_eq!(read_length_prefixed(&frame).unwrap(), &payload[..]);
    }
}

#[test]
fn frame_is_read_from_the_start_of_a_stream() {
    let mut stream = write_length_prefixed(b"first").to_vec();
    stream.extend_from_slice(&write_length_prefixed(b"second"));
    assert_eq!(read_length_prefixed(&stream).unwrap(), b"first");
}

#[test]
fn length_prefix_is_backfilled() {
    let mut buf = bytes::BytesMut::new();
    buf.extend_from_slice(&[0xff, 0xff, 1, 2, 3]);
    update_length_prefix(&mut buf);
    assert_eq!(&buf[..], &[3, 0, 1, 2, 3]);
}

#[test]
fn short_streams_are_refused() {
    assert_eq!(
        read_length_prefixed(&[]),
        Err(LengthReadError::ReadExact(ReadExactError::FinishedEarly(0)))
    );
    assert_eq!(
        read_length_prefixed(&[5]),
        Err(LengthReadError::ReadExact(ReadExactError::FinishedEarly(1)))
    );
    assert_eq!(
        read_length_prefixed(&[5, 0]),
        Err(LengthReadError::StreamEnded)
    );
    assert_eq!(
        read_length_prefixed(&[5, 0, 1, 2]),
        Err(LengthReadError::LengthMismatch {
            expected: 5,
            received: 2
        })
    );
}

#[test]
fn chunks_are_held_against_the_prefix() {
    assert_eq!(frame_length([0x34, 0x12]), 0x1234);
    assert_eq!(check_chunk(2, Some(&[1, 2])), Ok(&[1u8, 2][..]));
    assert_eq!(check_chunk(2, None), Err(LengthReadError::StreamEnded));
    assert_eq!(
        check_chunk(2, Some(&[1, 2, 3])),
        Err(LengthReadError::LengthMismatch {
            expected: 2,
            received: 3
        })
    );
}

#[test]
fn codes_and_their_numbers() {
    let all = [
        (ErrorCode::Unknown, 0, "0: unknown"),
        (ErrorCode::Success, 200, "200: ok"),
        (ErrorCode::BadRequest, 400, "400: bad request"),
        (ErrorCode::BadHandshake, 402, "402: bad handshake"),
        (ErrorCode::LengthRequired, 411, "411: length required"),
        (ErrorCode::PayloadTooLarge, 413, "413: payload too large"),
        (ErrorCode::PayloadInsufficient, 414, "414: payload insufficient"),
        (ErrorCode::ClientClosed, 499, "499: client closed"),
        (ErrorCode::InternalServerError, 500, "500: internal server error"),
        (ErrorCode::VersionNotSupported, 505, "505: version not supported"),
    ];
    for (code, number, text) in all {
        assert_eq!(code.code(), number);
        assert_eq!(ErrorCode::from_code(number as u64), code);
        assert_eq!(code.to_text(), text);
    }
    assert_eq!(ErrorCode::from_code(1), ErrorCode::Unknown);
    assert_eq!(ErrorCode::from_code(404), ErrorCode::Unknown);
    assert_eq!(ErrorCode::from_code(u64::MAX), ErrorCode::Unknown);
}

#[test]
fn read_errors_and_their_codes() {
    let code = |e: LengthReadError| ErrorCode::from_read_error(&e);
    assert_eq!(code(LengthReadError::Read), ErrorCode::ClientClosed);
    assert_eq!(code(LengthReadError::StreamEnded), ErrorCode::ClientClosed);
    assert_eq!(
        code(LengthReadError::ReadExact(ReadExactError::ReadError)),
        ErrorCode::ClientClosed
    );
    assert_eq!(
        code(LengthReadError::ReadExact(ReadExactError::FinishedEarly(1))),
        ErrorCode::LengthRequired
    );
    assert_eq!(
        code(LengthReadError::LengthMismatch {
            expected: 2,
            received: 3
        }),
        ErrorCode::PayloadTooLarge
    );
    assert_eq!(
        code(LengthReadError::LengthMismatch {
            expected: 3,
            received: 2
        }),
        ErrorCode::PayloadInsufficient
    );
    assert_eq!(code(LengthReadError::Json), ErrorCode::BadRequest);
}

#[test]
fn loop_errors_and_their_codes() {
    assert_eq!(
        ErrorCode::from_loop_error(IoLoopError::Read(LengthReadError::Json)),
        ErrorCode::BadRequest
    );
    assert_eq!(
        ErrorCode::from_loop_error(IoLoopError::Write),
        ErrorCode::ClientClosed
    );
    assert_eq!(
        ErrorCode::from_loop_error(IoLoopError::Jsonb),
        ErrorCode::InternalServerError
    );
}

#[test]
fn handshake_errors_and_their_codes() {
    let code = |e: HandshakeError| ErrorCode::from_handshake_error(&e);
    assert_eq!(code(HandshakeError::InvalidMagic), ErrorCode::BadHandshake);
    assert_eq!(code(HandshakeError::InvalidResponse), ErrorCode::BadHandshake);
    assert_eq!(
        code(HandshakeError::InvalidIcao(IcaoError::InvalidLength { len: 1 })),
        ErrorCode::BadHandshake
    );
    assert_eq!(
        code(HandshakeError::UnsupportedVersion { ours: 1, theirs: 2 }),
        ErrorCode::VersionNotSupported
    );
    assert_eq!(
        code(HandshakeError::InsufficientLength {
            length: 1,
            expected: 6
        }),
        ErrorCode::LengthRequired
    );
}
