use corrosion::handshake::{
    ClientHandshake, ClientHandshakeRequestV1, HandshakeError, ServerHandshake,
    ServerHandshakeResponseV1,
};
use corrosion::icao::IcaoCode;

#[test]
fn version1_handshake() {
    let icao = IcaoCode::new_testing([b'H'; 4]);

    let chs = ClientHandshakeRequestV1 {
        qcmp_port: 8998,
        icao,
    }
    .write();

    let (version, chs) = ClientHandshake::read(1, &chs).unwrap();

    assert_eq!(version, 1);
    assert_eq!(chs.client_details(), (8998, icao));

    let shs = ServerHandshakeResponseV1 { accept: true }.write();

    let shs = ServerHandshake::read(1, &shs).unwrap();
    let ServerHandshake::V1(v1) = shs;
    assert!(v1.accept);
}

#[test]
fn request_bytes_are_little_endian() {
    let req = ClientHandshakeRequestV1 {
        qcmp_port: 0x2326,
        icao: IcaoCode::new_testing(*b"EGLL"),
    }
    .write();
    assert_eq!(
        req,
        [0x1a, 0xcc, 0xca, 0xf0, 0x01, 0x00, 0x26, 0x23, b'E', b'G', b'L', b'L']
    );
}

#[test]
fn malformed_magic_is_refused() {
    let mut req = ClientHandshakeRequestV1 {
        qcmp_port: 1,
        icao: IcaoCode::new_testing(*b"EGLL"),
    }
    .write();
    req[0] = 0;
    assert!(matches!(
        ClientHandshake::read(1, &req),
        Err(HandshakeError::InvalidMagic)
    ));
    assert!(matches!(
        ClientHandshake::read(1, &[0x1a, 0xcc]),
        Err(HandshakeError::InvalidMagic)
    ));
}

#[test]
fn response_bytes() {
    assert_eq!(
        ServerHandshakeResponseV1 { accept: true }.write(),
        [0x1a, 0xcc, 0xca, 0xf0, 0x01, 0x00, 0x01]
    );
    assert_eq!(
        ServerHandshakeResponseV1 { accept: false }.write(),
        [0x1a, 0xcc, 0xca, 0xf0, 0x01, 0x00, 0x00]
    );
    assert!(!ServerHandshakeResponseV1::read([0]).unwrap().accept);
    assert!(ServerHandshakeResponseV1::read([1]).unwrap().accept);
    assert!(matches!(
        ServerHandshakeResponseV1::read([2]),
        Err(HandshakeError::InvalidResponse)
    ));
    assert!(matches!(
        ServerHandshakeResponseV1::read([255]),
        Err(HandshakeError::InvalidResponse)
    ));
}

#[test]
fn unsupported_versions_are_refused() {
    for theirs in [0u16, 2, 0x0100, 0xffff] {
        let [lo, hi] = theirs.to_le_bytes();
        let message = [0x1a, 0xcc, 0xca, 0xf0, lo, hi, 1, 2, 3, 4, 5, 6];
        assert_eq!(
            ClientHandshake::read(7, &message).err(),
            Some(HandshakeError::UnsupportedVersion { ours: 7, theirs })
        );
        assert_eq!(
            ServerHandshake::read(9, &message).err(),
            Some(HandshakeError::UnsupportedVersion { ours: 9, theirs })
        );
        // The version is looked at before the payload
        assert_eq!(
            ClientHandshake::read(7, &message[..6]).err(),
            Some(HandshakeError::UnsupportedVersion { ours: 7, theirs })
        );
    }
}

#[test]
fn short_messages_are_refused() {
    let request = ClientHandshakeRequestV1 {
        qcmp_port: 1,
        icao: IcaoCode::new_testing(*b"EGLL"),
    }
    .write();
    for len in 0..4 {
        assert_eq!(
            ClientHandshake::read(1, &request[..len]).err(),
            Some(HandshakeError::InvalidMagic)
        );
    }
    for len in 4..6 {
        assert_eq!(
            ClientHandshake::read(1, &request[..len]).err(),
            Some(HandshakeError::InsufficientLength {
                length: len - 4,
                expected: 2
            })
        );
    }
    for len in 6..12 {
        assert_eq!(
            ClientHandshake::read(1, &request[..len]).err(),
            Some(HandshakeError::InsufficientLength {
                length: len - 6,
                expected: 6
            })
        );
    }
    assert!(ClientHandshake::read(1, &request).is_ok());
    // What follows the payload is not looked at
    let mut longer = request.to_vec();
    longer.push(0);
    assert!(ClientHandshake::read(1, &longer).is_ok());

    let response = ServerHandshakeResponseV1 { accept: true }.write();
    assert_eq!(
        ServerHandshake::read(1, &response[..6]).err(),
        Some(HandshakeError::InsufficientLength {
            length: 0,
            expected: 1
        })
    );
}

#[test]
fn invalid_region_is_refused() {
    assert!(matches!(
        ClientHandshakeRequestV1::read([1, 2, b'A', b'B', b'c', b'D']),
        Err(HandshakeError::InvalidIcao(
            corrosion::icao::IcaoError::InvalidCharacter {
                character: 'c',
                index: 2
            }
        ))
    ));
    let request = ClientHandshakeRequestV1::read([0x26, 0x23, b'A', b'B', b'C', b'D']).unwrap();
    assert_eq!(request.qcmp_port, 0x2326);
    assert_eq!(request.icao.as_bytes(), b"ABCD");
}

#[test]
fn header_and_sizes() {
    let mut buf = [9u8; 8];
    corrosion::handshake::write_magic_and_version(&mut buf, 0x0201);
    assert_eq!(buf, [0x1a, 0xcc, 0xca, 0xf0, 0x01, 0x02, 9, 9]);
    assert_eq!(corrosion::handshake::MAGIC, 0xf0cacc1au32.to_le_bytes());
    assert_eq!(corrosion::handshake::write_u16_le(0x1234), [0x34, 0x12]);
    assert_eq!(corrosion::handshake::read_u16_le(0x34, 0x12), 0x1234);
    assert_eq!(
        corrosion::handshake::explicit_size::<3>(&[1, 2, 3, 4]).unwrap(),
        [1, 2, 3]
    );
    assert_eq!(
        corrosion::handshake::explicit_size::<3>(&[1, 2]).err(),
        Some(HandshakeError::InsufficientLength {
            length: 2,
            expected: 3
        })
    );
}
