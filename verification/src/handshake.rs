//! The versioned handshake that opens a persistent connection.
//!
//! Both directions start with the magic number and a 16-bit version, both
//! little-endian, followed by a payload whose size the version fixes.

use vstd::prelude::*;
use crate::icao::{is_code, parse_bytes, IcaoCode, IcaoError};

verus! {

/// The magic number `0xF0CACC1A`, least significant byte first.
pub const MAGIC: [u8; 4] = [0x1a, 0xcc, 0xca, 0xf0];

/// The magic number as a sequence of bytes.
pub open spec fn magic() -> Seq<u8> {
    seq![0x1au8, 0xccu8, 0xcau8, 0xf0u8]
}

/// The two bytes of `v`, least significant first.
pub open spec fn u16_le(v: u16) -> Seq<u8> {
    seq![(v % 256) as u8, (v / 256) as u8]
}

/// The number that two bytes denote, least significant first.
pub open spec fn u16_from_le(lo: u8, hi: u8) -> u16 {
    (lo as int + 256 * (hi as int)) as u16
}

/// The six bytes that open every handshake message of `version`.
pub open spec fn header(version: u16) -> Seq<u8> {
    magic() + u16_le(version)
}

/// Why a handshake message was not accepted.
#[derive(Debug, Clone, Copy, PartialEq, Eq)]
pub enum HandshakeError {
    /// The response's payload is none that the version defines.
    InvalidResponse,
    /// The message does not start with the magic number.
    InvalidMagic,
    /// The peer speaks a version that this side does not.
    UnsupportedVersion { ours: u16, theirs: u16 },
    /// Fewer bytes were left than the next field needs.
    InsufficientLength { length: usize, expected: usize },
    /// The region code of the request is none.
    InvalidIcao(IcaoError),
}

/// The two bytes of `v`, least significant first.
pub fn write_u16_le(v: u16) -> (r: [u8; 2])
    ensures
        r@ == u16_le(v),
{
    let r = [(v % 256) as u8, (v / 256) as u8];
    assert(r@ =~= u16_le(v));
    r
}

/// The number that two bytes denote, least significant first.
pub fn read_u16_le(lo: u8, hi: u8) -> (r: u16)
    ensures
        r == u16_from_le(lo, hi),
{
    let r = lo as u16 | (hi as u16) << 8;
    assert(r == lo as u16 + 256 * (hi as u16)) by (bit_vector)
        requires
            r == lo as u16 | (hi as u16) << 8,
    ;
    r
}

/// Writes the magic number and `version` into the first six bytes of `buf`.
pub fn write_magic_and_version(buf: &mut [u8], version: u16)
    requires
        old(buf)@.len() >= 6,
    ensures
        final(buf)@ == header(version) + old(buf)@.subrange(6, old(buf)@.len() as int),
{
    buf[0] = MAGIC[0];
    buf[1] = MAGIC[1];
    buf[2] = MAGIC[2];
    buf[3] = MAGIC[3];
    let v = write_u16_le(version);
    buf[4] = v[0];
    buf[5] = v[1];
    assert(buf@ =~= header(version) + old(buf)@.subrange(6, old(buf)@.len() as int));
}

/// The first `N` bytes of `buf`, or how many were there where they are fewer.
pub fn explicit_size<const N: usize>(buf: &[u8]) -> (r: Result<[u8; N], HandshakeError>)
    ensures
        buf@.len() < N ==> r == Err::<[u8; N], HandshakeError>(
            HandshakeError::InsufficientLength { length: buf@.len() as usize, expected: N },
        ),
        buf@.len() >= N ==> r is Ok && r->Ok_0@ == buf@.subrange(0, N as int),
{
    if buf.len() < N {
        return Err(HandshakeError::InsufficientLength { length: buf.len(), expected: N });
    }
    let mut es = [0u8; N];
    let mut i: usize = 0;
    while i < N
        invariant
            i <= N,
            buf@.len() >= N,
            es@.len() == N,
            forall|j: int| 0 <= j < i ==> es@[j] == buf@[j],
        decreases N - i,
    {
        es[i] = buf[i];
        i += 1;
    }
    assert(es@ =~= buf@.subrange(0, N as int));
    Ok(es)
}

/// The version of the protocol that this library speaks.
pub const VERSION: u16 = 1;

/// The bytes of a version 1 request: header, probe port, region code.
pub open spec fn client_request_v1(qcmp_port: u16, icao: Seq<u8>) -> Seq<u8> {
    header(1) + u16_le(qcmp_port) + icao
}

/// The bytes of a version 1 response: header and one byte, 1 to accept.
pub open spec fn server_response_v1(accept: bool) -> Seq<u8> {
    header(1).push(if accept { 1u8 } else { 0u8 })
}

/// What the payload of a version 1 request holds: the probe port and the
/// region code, or why the code is none.
pub open spec fn parse_client_payload_v1(payload: Seq<u8>) -> Result<(u16, Seq<u8>), HandshakeError>
    recommends
        payload.len() == 6,
{
    match parse_bytes(payload.subrange(2, 6)) {
        Ok(icao) => Ok((u16_from_le(payload[0], payload[1]), icao)),
        Err(e) => Err(HandshakeError::InvalidIcao(e)),
    }
}

/// What the payload of a version 1 response holds: whether the server accepts.
pub open spec fn parse_server_payload_v1(payload: Seq<u8>) -> Result<bool, HandshakeError>
    recommends
        payload.len() == 1,
{
    if payload[0] == 0 {
        Ok(false)
    } else if payload[0] == 1 {
        Ok(true)
    } else {
        Err(HandshakeError::InvalidResponse)
    }
}

/// The version that a message announces, or why it announces none: it must
/// start with the magic number, and two more bytes must follow.
pub open spec fn parse_header(bytes: Seq<u8>) -> Result<u16, HandshakeError> {
    if bytes.len() < 4 || bytes.subrange(0, 4) != magic() {
        Err(HandshakeError::InvalidMagic)
    } else if bytes.len() < 6 {
        Err(HandshakeError::InsufficientLength { length: (bytes.len() - 4) as usize, expected: 2 })
    } else {
        Ok(u16_from_le(bytes[4], bytes[5]))
    }
}

/// What a request holds, read by a server that speaks `server_version`: the
/// version, the probe port and the region code, or the first fault.
pub open spec fn parse_client_handshake(server_version: u16, bytes: Seq<u8>) -> Result<
    (u16, u16, Seq<u8>),
    HandshakeError,
> {
    match parse_header(bytes) {
        Err(e) => Err(e),
        Ok(version) => if version != 1 {
            Err(HandshakeError::UnsupportedVersion { ours: server_version, theirs: version })
        } else if bytes.len() - 6 < 6 {
            Err(
                HandshakeError::InsufficientLength {
                    length: (bytes.len() - 6) as usize,
                    expected: 6,
                },
            )
        } else {
            match parse_client_payload_v1(bytes.subrange(6, 12)) {
                Ok((port, icao)) => Ok((version, port, icao)),
                Err(e) => Err(e),
            }
        },
    }
}

/// What a response holds, read by a client that speaks `client_version`:
/// whether the server accepts, or the first fault.
pub open spec fn parse_server_handshake(client_version: u16, bytes: Seq<u8>) -> Result<
    bool,
    HandshakeError,
> {
    match parse_header(bytes) {
        Err(e) => Err(e),
        Ok(version) => if version != 1 {
            Err(HandshakeError::UnsupportedVersion { ours: client_version, theirs: version })
        } else if bytes.len() - 6 < 1 {
            Err(
                HandshakeError::InsufficientLength {
                    length: (bytes.len() - 6) as usize,
                    expected: 1,
                },
            )
        } else {
            parse_server_payload_v1(bytes.subrange(6, 7))
        },
    }
}

/// Reads the header of a message: the version it announces.
fn read_header(buf: &[u8]) -> (r: Result<u16, HandshakeError>)
    ensures
        r == parse_header(buf@),
{
    if buf.len() < 4 || buf[0] != MAGIC[0] || buf[1] != MAGIC[1] || buf[2] != MAGIC[2] || buf[3]
        != MAGIC[3] {
        proof {
            if buf@.len() >= 4 {
                let m = buf@.subrange(0, 4);
                assert(m[0] == buf@[0] && m[1] == buf@[1] && m[2] == buf@[2] && m[3] == buf@[3]);
            }
        }
        return Err(HandshakeError::InvalidMagic);
    }
    assert(buf@.subrange(0, 4) =~= magic());
    if buf.len() < 6 {
        return Err(HandshakeError::InsufficientLength { length: buf.len() - 4, expected: 2 });
    }
    Ok(read_u16_le(buf[4], buf[5]))
}

/// The first request of a client at version 1.
pub struct ClientHandshakeRequestV1 {
    /// The port on which the client answers probes.
    pub qcmp_port: u16,
    /// The region that the client serves.
    pub icao: IcaoCode,
}

impl ClientHandshakeRequestV1 {
    /// The twelve bytes of the request.
    pub fn write(self) -> (r: [u8; 12])
        ensures
            r@ == client_request_v1(self.qcmp_port, self.icao@),
            forall|server_version: u16| #[trigger]
                parse_client_handshake(server_version, r@) == Ok::<
                    (u16, u16, Seq<u8>),
                    HandshakeError,
                >((1, self.qcmp_port, self.icao@)),
    {
        proof {
            use_type_invariant(&self.icao);
            assert forall|server_version: u16| #[trigger]
                parse_client_handshake(
                    server_version,
                    client_request_v1(self.qcmp_port, self.icao@),
                ) == Ok::<(u16, u16, Seq<u8>), HandshakeError>(
                    (1, self.qcmp_port, self.icao@),
                ) by {
                lemma_client_handshake_round_trip(server_version, self.qcmp_port, self.icao@);
            }
        }
        let mut req = [0u8; 12];
        write_magic_and_version(&mut req, 1);
        let port = write_u16_le(self.qcmp_port);
        req[6] = port[0];
        req[7] = port[1];
        let icao = self.icao.as_bytes();
        req[8] = icao[0];
        req[9] = icao[1];
        req[10] = icao[2];
        req[11] = icao[3];
        assert(req@ =~= client_request_v1(self.qcmp_port, self.icao@));
        req
    }

    /// Reads the payload of a request: its region code must be one.
    pub fn read(buf: [u8; 6]) -> (r: Result<Self, HandshakeError>)
        ensures
            match r {
                Ok(req) => parse_client_payload_v1(buf@) == Ok::<(u16, Seq<u8>), HandshakeError>(
                    (req.qcmp_port, req.icao@),
                ),
                Err(e) => parse_client_payload_v1(buf@) == Err::<(u16, Seq<u8>), HandshakeError>(
                    e,
                ),
            },
    {
        let qcmp_port = read_u16_le(buf[0], buf[1]);
        let code = [buf[2], buf[3], buf[4], buf[5]];
        assert(code@ =~= buf@.subrange(2, 6));
        match IcaoCode::from_bytes(code.as_slice()) {
            Ok(icao) => Ok(Self { qcmp_port, icao }),
            Err(e) => Err(HandshakeError::InvalidIcao(e)),
        }
    }
}

/// A request of a client, by version.
pub enum ClientHandshake {
    V1(ClientHandshakeRequestV1),
}

impl ClientHandshake {
    /// The probe port of the request.
    pub open spec fn qcmp_port(&self) -> u16 {
        match self {
            ClientHandshake::V1(req) => req.qcmp_port,
        }
    }

    /// The region code of the request.
    pub open spec fn icao(&self) -> IcaoCode {
        match self {
            ClientHandshake::V1(req) => req.icao,
        }
    }

    /// Reads a request as a server that speaks `server_version`.
    pub fn read(server_version: u16, buf: &[u8]) -> (r: Result<(u16, Self), HandshakeError>)
        ensures
            match r {
                Ok((version, this)) => parse_client_handshake(server_version, buf@) == Ok::<
                    (u16, u16, Seq<u8>),
                    HandshakeError,
                >((version, this.qcmp_port(), this.icao()@)),
                Err(e) => parse_client_handshake(server_version, buf@) == Err::<
                    (u16, u16, Seq<u8>),
                    HandshakeError,
                >(e),
            },
    {
        let version = match read_header(buf) {
            Ok(version) => version,
            Err(e) => {
                return Err(e);
            },
        };
        if version != 1 {
            return Err(HandshakeError::UnsupportedVersion { ours: server_version, theirs: version });
        }
        let rest = vstd::slice::slice_subrange(buf, 6, buf.len());
        let fixed = match explicit_size::<6>(rest) {
            Ok(fixed) => fixed,
            Err(e) => {
                return Err(e);
            },
        };
        assert(fixed@ =~= buf@.subrange(6, 12));
        match ClientHandshakeRequestV1::read(fixed) {
            Ok(req) => Ok((version, ClientHandshake::V1(req))),
            Err(e) => Err(e),
        }
    }

    /// The probe port and the region code of the request.
    pub fn client_details(self) -> (r: (u16, IcaoCode))
        ensures
            r == (self.qcmp_port(), self.icao()),
    {
        match self {
            ClientHandshake::V1(req) => (req.qcmp_port, req.icao),
        }
    }
}

/// The response of a server at version 1.
pub struct ServerHandshakeResponseV1 {
    /// Whether the server accepts the client.
    pub accept: bool,
}

impl ServerHandshakeResponseV1 {
    /// The seven bytes of the response.
    pub fn write(self) -> (r: [u8; 7])
        ensures
            r@ == server_response_v1(self.accept),
            forall|client_version: u16| #[trigger]
                parse_server_handshake(client_version, r@) == Ok::<bool, HandshakeError>(
                    self.accept,
                ),
    {
        proof {
            assert forall|client_version: u16| #[trigger]
                parse_server_handshake(client_version, server_response_v1(self.accept)) == Ok::<
                    bool,
                    HandshakeError,
                >(self.accept) by {
                lemma_server_handshake_round_trip(client_version, self.accept);
            }
        }
        let mut res = [0u8; 7];
        write_magic_and_version(&mut res, 1);
        res[6] = if self.accept {
            1
        } else {
            0
        };
        assert(res@ =~= server_response_v1(self.accept));
        res
    }

    /// Reads the payload of a response: 0 refuses, 1 accepts, nothing else is one.
    pub fn read(buf: [u8; 1]) -> (r: Result<Self, HandshakeError>)
        ensures
            match r {
                Ok(res) => parse_server_payload_v1(buf@) == Ok::<bool, HandshakeError>(res.accept),
                Err(e) => parse_server_payload_v1(buf@) == Err::<bool, HandshakeError>(e),
            },
    {
        if buf[0] == 0 {
            Ok(Self { accept: false })
        } else if buf[0] == 1 {
            Ok(Self { accept: true })
        } else {
            Err(HandshakeError::InvalidResponse)
        }
    }
}

/// A response of a server, by version.
pub enum ServerHandshake {
    V1(ServerHandshakeResponseV1),
}

impl ServerHandshake {
    /// Whether the response accepts the client.
    pub open spec fn accept(&self) -> bool {
        match self {
            ServerHandshake::V1(res) => res.accept,
        }
    }

    /// Reads a response as a client that speaks `client_version`.
    pub fn read(client_version: u16, buf: &[u8]) -> (r: Result<Self, HandshakeError>)
        ensures
            match r {
                Ok(this) => parse_server_handshake(client_version, buf@) == Ok::<
                    bool,
                    HandshakeError,
                >(this.accept()),
                Err(e) => parse_server_handshake(client_version, buf@) == Err::<
                    bool,
                    HandshakeError,
                >(e),
            },
    {
        let version = match read_header(buf) {
            Ok(version) => version,
            Err(e) => {
                return Err(e);
            },
        };
        if version != 1 {
            return Err(HandshakeError::UnsupportedVersion { ours: client_version, theirs: version });
        }
        let rest = vstd::slice::slice_subrange(buf, 6, buf.len());
        let fixed = match explicit_size::<1>(rest) {
            Ok(fixed) => fixed,
            Err(e) => {
                return Err(e);
            },
        };
        assert(fixed@ =~= buf@.subrange(6, 7));
        match ServerHandshakeResponseV1::read(fixed) {
            Ok(res) => Ok(ServerHandshake::V1(res)),
            Err(e) => Err(e),
        }
    }
}

/// A request that was written is read back as it was: version 1, the same
/// probe port and the same region code, whatever version the server names
/// as its own.
pub proof fn lemma_client_handshake_round_trip(server_version: u16, qcmp_port: u16, icao: Seq<u8>)
    requires
        is_code(icao),
    ensures
        parse_client_handshake(server_version, client_request_v1(qcmp_port, icao)) == Ok::<
            (u16, u16, Seq<u8>),
            HandshakeError,
        >((1, qcmp_port, icao)),
{
    let bytes = client_request_v1(qcmp_port, icao);
    assert(bytes.subrange(0, 4) =~= magic());
    assert(bytes.subrange(6, 12).subrange(2, 6) =~= icao);
    assert(bytes[4] == 1 && bytes[5] == 0);
    assert(bytes[6] == u16_le(qcmp_port)[0]);
    assert(bytes[7] == u16_le(qcmp_port)[1]);
}

/// A response that was written is read back as it was.
pub proof fn lemma_server_handshake_round_trip(client_version: u16, accept: bool)
    ensures
        parse_server_handshake(client_version, server_response_v1(accept)) == Ok::<
            bool,
            HandshakeError,
        >(accept),
{
    let bytes = server_response_v1(accept);
    assert(bytes.subrange(0, 4) =~= magic());
    assert(bytes[4] == 1 && bytes[5] == 0);
}

/// A message with the magic number and a version other than 1 is refused as
/// unsupported, with the reader's version and the one that was read.
pub proof fn lemma_unsupported_version(ours: u16, theirs: u16, payload: Seq<u8>)
    requires
        theirs != 1,
    ensures
        parse_client_handshake(ours, header(theirs) + payload) == Err::<
            (u16, u16, Seq<u8>),
            HandshakeError,
        >(HandshakeError::UnsupportedVersion { ours, theirs }),
        parse_server_handshake(ours, header(theirs) + payload) == Err::<bool, HandshakeError>(
            HandshakeError::UnsupportedVersion { ours, theirs },
        ),
{
    let bytes = header(theirs) + payload;
    assert(bytes.subrange(0, 4) =~= magic());
    assert(bytes[4] == (theirs % 256) as u8);
    assert(bytes[5] == (theirs / 256) as u8);
}

} // verus!
