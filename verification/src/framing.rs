//! Frames of the persistent connection: a 16-bit little-endian length and
//! that many bytes of payload.

use vstd::prelude::*;
use bytes::{BufMut, BytesMut};
use crate::handshake::{read_u16_le, u16_from_le, u16_le, write_u16_le};

verus! {

/// The largest payload that a frame can carry.
pub const MAX_PAYLOAD: usize = 65535;

/// `bytes::BytesMut`: a buffer of bytes that grows at its end.
#[verifier::external_type_specification]
#[verifier::external_body]
pub struct ExBytesMut(BytesMut);

/// The bytes that a buffer holds, first to last.
pub uninterp spec fn buffer_content(buf: BytesMut) -> Seq<u8>;

/// `BytesMut::with_capacity` gives an empty buffer.
#[verifier::external_body]
fn buffer_with_capacity(capacity: usize) -> (buf: BytesMut)
    ensures
        buffer_content(buf) == Seq::<u8>::empty(),
{
    BytesMut::with_capacity(capacity)
}

/// `BufMut::put_u16` on a `BytesMut` appends the two bytes of `n`, most
/// significant first; the buffer grows as needed.
#[verifier::external_body]
fn buffer_put_u16(buf: &mut BytesMut, n: u16)
    ensures
        buffer_content(*final(buf)) == buffer_content(*old(buf)) + seq![
            (n / 256) as u8,
            (n % 256) as u8,
        ],
{
    buf.put_u16(n)
}

/// `BytesMut::extend_from_slice` appends the bytes of `extend`.
#[verifier::external_body]
fn buffer_extend_from_slice(buf: &mut BytesMut, extend: &[u8])
    ensures
        buffer_content(*final(buf)) == buffer_content(*old(buf)) + extend@,
{
    buf.extend_from_slice(extend)
}

/// `BytesMut::len` is the number of bytes that the buffer holds.
#[verifier::external_body]
fn buffer_len(buf: &BytesMut) -> (len: usize)
    ensures
        len == buffer_content(*buf).len(),
{
    buf.len()
}

/// Indexing a `BytesMut` mutably reaches the byte at `index` and no other.
#[verifier::external_body]
fn buffer_set(buf: &mut BytesMut, index: usize, value: u8)
    requires
        index < buffer_content(*old(buf)).len(),
    ensures
        buffer_content(*final(buf)) == buffer_content(*old(buf)).update(index as int, value),
{
    buf[index] = value;
}

/// The frame that carries `payload`.
pub open spec fn frame(payload: Seq<u8>) -> Seq<u8>
    recommends
        payload.len() <= MAX_PAYLOAD,
{
    u16_le(payload.len() as u16) + payload
}

/// Writes into the first two bytes of `buf` the number of bytes that follow them.
pub fn update_length_prefix(buf: &mut BytesMut)
    requires
        2 <= buffer_content(*old(buf)).len() <= MAX_PAYLOAD + 2,
    ensures
        buffer_content(*final(buf)) == frame(
            buffer_content(*old(buf)).subrange(2, buffer_content(*old(buf)).len() as int),
        ),
{
    let len = (buffer_len(buf) - 2) as u16;
    let prefix = write_u16_le(len);
    buffer_set(buf, 0, prefix[0]);
    buffer_set(buf, 1, prefix[1]);
    assert(buffer_content(*buf) =~= frame(
        buffer_content(*old(buf)).subrange(2, buffer_content(*old(buf)).len() as int),
    ));
}

/// The frame that carries `bytes`; it is read back as `bytes`.
pub fn write_length_prefixed(bytes: &[u8]) -> (buf: BytesMut)
    requires
        bytes@.len() <= MAX_PAYLOAD,
    ensures
        buffer_content(buf) == frame(bytes@),
        read_frame(buffer_content(buf)) == Ok::<Seq<u8>, LengthReadError>(bytes@),
{
    proof {
        lemma_frame_round_trip(bytes@, Seq::empty());
    }
    let mut buf = buffer_with_capacity(bytes.len() + 2);
    // Reserve the length prefix
    buffer_put_u16(&mut buf, 0);
    buffer_extend_from_slice(&mut buf, bytes);
    assert(buffer_content(buf).subrange(2, buffer_content(buf).len() as int) =~= bytes@);
    update_length_prefix(&mut buf);
    buf
}

/// Why `read_exact` gave up.
#[derive(Debug, Clone, Copy, PartialEq, Eq)]
pub enum ReadExactError {
    /// The stream finished after this many bytes, fewer than were asked for.
    FinishedEarly(usize),
    /// The transport failed.
    ReadError,
}

/// Why no frame was read.
#[derive(Debug, Clone, Copy, PartialEq, Eq)]
pub enum LengthReadError {
    /// The length prefix could not be read in full.
    ReadExact(ReadExactError),
    /// The transport failed while the payload was read.
    Read,
    /// The stream ended where the payload should have started.
    StreamEnded,
    /// The payload came in a chunk of another size than the prefix announced.
    LengthMismatch { expected: usize, received: usize },
    /// The payload was no document of the expected shape.
    Json,
}

/// The length that a prefix announces.
pub fn frame_length(prefix: [u8; 2]) -> (len: usize)
    ensures
        len == u16_from_le(prefix@[0], prefix@[1]),
{
    read_u16_le(prefix[0], prefix[1]) as usize
}

/// What a chunk that was read for a payload of `expected` bytes amounts to:
/// the payload, where the chunk has that size.
pub open spec fn checked_chunk(expected: nat, chunk: Option<Seq<u8>>) -> Result<
    Seq<u8>,
    LengthReadError,
> {
    match chunk {
        None => Err(LengthReadError::StreamEnded),
        Some(bytes) => if bytes.len() != expected {
            Err(
                LengthReadError::LengthMismatch {
                    expected: expected as usize,
                    received: bytes.len() as usize,
                },
            )
        } else {
            Ok(bytes)
        },
    }
}

/// Holds the chunk that the transport gave for a payload of `expected` bytes
/// against that length; no chunk means that the stream has ended.
pub fn check_chunk<'a>(expected: usize, chunk: Option<&'a [u8]>) -> (r: Result<
    &'a [u8],
    LengthReadError,
>)
    ensures
        match r {
            Ok(payload) => checked_chunk(
                expected as nat,
                match chunk {
                    Some(c) => Some(c@),
                    None => None,
                },
            ) == Ok::<Seq<u8>, LengthReadError>(payload@),
            Err(e) => checked_chunk(
                expected as nat,
                match chunk {
                    Some(c) => Some(c@),
                    None => None,
                },
            ) == Err::<Seq<u8>, LengthReadError>(e),
        },
{
    match chunk {
        None => Err(LengthReadError::StreamEnded),
        Some(bytes) => {
            if bytes.len() != expected {
                Err(LengthReadError::LengthMismatch { expected, received: bytes.len() })
            } else {
                Ok(bytes)
            }
        },
    }
}

/// The chunk that a stream held in memory gives when at most `expected`
/// bytes are asked of it: what is left of it, up to that many bytes, and no
/// chunk where bytes were expected and none is left.
pub open spec fn next_chunk(rest: Seq<u8>, expected: nat) -> Option<Seq<u8>> {
    if rest.len() == 0 && expected > 0 {
        None
    } else if rest.len() <= expected {
        Some(rest)
    } else {
        Some(rest.subrange(0, expected as int))
    }
}

/// The payload of the frame at the start of `stream`, or why there is none.
pub open spec fn read_frame(stream: Seq<u8>) -> Result<Seq<u8>, LengthReadError> {
    if stream.len() < 2 {
        Err(LengthReadError::ReadExact(ReadExactError::FinishedEarly(stream.len() as usize)))
    } else {
        let expected = u16_from_le(stream[0], stream[1]) as nat;
        checked_chunk(expected, next_chunk(stream.subrange(2, stream.len() as int), expected))
    }
}

/// Reads the frame at the start of a stream that is held in memory.
pub fn read_length_prefixed<'a>(stream: &'a [u8]) -> (r: Result<&'a [u8], LengthReadError>)
    ensures
        match r {
            Ok(payload) => read_frame(stream@) == Ok::<Seq<u8>, LengthReadError>(payload@),
            Err(e) => read_frame(stream@) == Err::<Seq<u8>, LengthReadError>(e),
        },
{
    if stream.len() < 2 {
        return Err(LengthReadError::ReadExact(ReadExactError::FinishedEarly(stream.len())));
    }
    let expected = frame_length([stream[0], stream[1]]);
    let rest = vstd::slice::slice_subrange(stream, 2, stream.len());
    let chunk = if rest.len() == 0 && expected > 0 {
        None
    } else if rest.len() <= expected {
        Some(rest)
    } else {
        Some(vstd::slice::slice_subrange(rest, 0, expected))
    };
    check_chunk(expected, chunk)
}

/// A frame that was written is read back as its payload, whatever follows it
/// in the stream.
pub proof fn lemma_frame_round_trip(payload: Seq<u8>, following: Seq<u8>)
    requires
        payload.len() <= MAX_PAYLOAD,
    ensures
        read_frame(frame(payload)) == Ok::<Seq<u8>, LengthReadError>(payload),
        read_frame(frame(payload) + following) == Ok::<Seq<u8>, LengthReadError>(payload),
{
    let n = payload.len() as u16;
    assert(u16_from_le((n % 256) as u8, (n / 256) as u8) == n);
    let stream = frame(payload);
    assert(stream.subrange(2, stream.len() as int) =~= payload);
    let longer = frame(payload) + following;
    let rest = longer.subrange(2, longer.len() as int);
    assert(rest =~= payload + following);
    if following.len() > 0 {
        assert(rest.subrange(0, payload.len() as int) =~= payload);
    } else {
        assert(rest =~= payload);
    }
}

/// A payload that is longer than a frame can carry is not read back from
/// the bytes that `frame` gives for it: the prefix holds its length cut to
/// sixteen bits, and only so many bytes are read. Such a payload has no frame.
pub proof fn lemma_long_payload_has_no_frame(payload: Seq<u8>)
    requires
        payload.len() > MAX_PAYLOAD,
    ensures
        read_frame(frame(payload)) != Ok::<Seq<u8>, LengthReadError>(payload),
{
    let stream = frame(payload);
    let expected = u16_from_le(stream[0], stream[1]) as nat;
    let rest = stream.subrange(2, stream.len() as int);
    assert(rest =~= payload);
    assert(expected <= MAX_PAYLOAD);
    assert(next_chunk(rest, expected) == Some(rest.subrange(0, expected as int)));
    assert(rest.subrange(0, expected as int).len() == expected);
}

} // verus!
