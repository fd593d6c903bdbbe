//! The codes with which a stream is closed or reset.
//!
//! They are plain integers on the wire, taken from the status codes of HTTP.

use vstd::prelude::*;
use vstd::string::*;
use crate::framing::{LengthReadError, ReadExactError};
use crate::handshake::HandshakeError;
use crate::text::{decimal, push_decimal};

verus! {

/// Why a stream ended.
#[derive(Debug, Clone, Copy, PartialEq, Eq)]
pub enum ErrorCode {
    /// Reserved, and what every unlisted number means.
    Unknown,
    /// Success.
    Success,
    /// The request was read in full but made no sense.
    BadRequest,
    /// The handshake could not be read or was not valid.
    BadHandshake,
    /// The stream ended between a length prefix and its payload.
    LengthRequired,
    /// A frame came with more bytes than its prefix announced.
    PayloadTooLarge,
    /// A frame came with fewer bytes than its prefix announced.
    PayloadInsufficient,
    /// The client closed or aborted the connection.
    ClientClosed,
    /// The server failed on its own account.
    InternalServerError,
    /// The client speaks a version that the server does not.
    VersionNotSupported,
}

/// Why the loop that serves one peer stopped.
#[derive(Debug, Clone, Copy, PartialEq, Eq)]
pub enum IoLoopError {
    /// No request could be read.
    Read(LengthReadError),
    /// The response could not be written as a document.
    Jsonb,
    /// The response could not be sent.
    Write,
}

impl ErrorCode {
    /// The number of the code.
    pub open spec fn number(self) -> u16 {
        match self {
            ErrorCode::Unknown => 0,
            ErrorCode::Success => 200,
            ErrorCode::BadRequest => 400,
            ErrorCode::BadHandshake => 402,
            ErrorCode::LengthRequired => 411,
            ErrorCode::PayloadTooLarge => 413,
            ErrorCode::PayloadInsufficient => 414,
            ErrorCode::ClientClosed => 499,
            ErrorCode::InternalServerError => 500,
            ErrorCode::VersionNotSupported => 505,
        }
    }

    /// The code that a number stands for; `Unknown` for every unlisted number.
    pub open spec fn of_number(value: u64) -> ErrorCode {
        if value == 200 {
            ErrorCode::Success
        } else if value == 400 {
            ErrorCode::BadRequest
        } else if value == 402 {
            ErrorCode::BadHandshake
        } else if value == 411 {
            ErrorCode::LengthRequired
        } else if value == 413 {
            ErrorCode::PayloadTooLarge
        } else if value == 414 {
            ErrorCode::PayloadInsufficient
        } else if value == 499 {
            ErrorCode::ClientClosed
        } else if value == 500 {
            ErrorCode::InternalServerError
        } else if value == 505 {
            ErrorCode::VersionNotSupported
        } else {
            ErrorCode::Unknown
        }
    }

    /// The words that describe the code.
    pub open spec fn words(self) -> Seq<char> {
        match self {
            ErrorCode::Unknown => "unknown"@,
            ErrorCode::Success => "ok"@,
            ErrorCode::BadRequest => "bad request"@,
            ErrorCode::BadHandshake => "bad handshake"@,
            ErrorCode::LengthRequired => "length required"@,
            ErrorCode::PayloadTooLarge => "payload too large"@,
            ErrorCode::PayloadInsufficient => "payload insufficient"@,
            ErrorCode::ClientClosed => "client closed"@,
            ErrorCode::InternalServerError => "internal server error"@,
            ErrorCode::VersionNotSupported => "version not supported"@,
        }
    }

    /// The code that the failure to read a frame is reported with.
    pub open spec fn of_read_error(error: LengthReadError) -> ErrorCode {
        match error {
            LengthReadError::Read => ErrorCode::ClientClosed,
            LengthReadError::ReadExact(ReadExactError::ReadError) => ErrorCode::ClientClosed,
            LengthReadError::StreamEnded => ErrorCode::ClientClosed,
            LengthReadError::ReadExact(ReadExactError::FinishedEarly(_)) => {
                ErrorCode::LengthRequired
            },
            LengthReadError::LengthMismatch { expected, received } => if received > expected {
                ErrorCode::PayloadTooLarge
            } else {
                ErrorCode::PayloadInsufficient
            },
            LengthReadError::Json => ErrorCode::BadRequest,
        }
    }

    /// The code that a refused handshake is reported with.
    pub open spec fn of_handshake_error(error: HandshakeError) -> ErrorCode {
        match error {
            HandshakeError::UnsupportedVersion { .. } => ErrorCode::VersionNotSupported,
            HandshakeError::InsufficientLength { .. } => ErrorCode::LengthRequired,
            HandshakeError::InvalidMagic => ErrorCode::BadHandshake,
            HandshakeError::InvalidResponse => ErrorCode::BadHandshake,
            HandshakeError::InvalidIcao(_) => ErrorCode::BadHandshake,
        }
    }

    /// The code that the end of a peer's loop is reported with.
    pub open spec fn of_loop_error(error: IoLoopError) -> ErrorCode {
        match error {
            IoLoopError::Read(read) => ErrorCode::of_read_error(read),
            IoLoopError::Write => ErrorCode::ClientClosed,
            IoLoopError::Jsonb => ErrorCode::InternalServerError,
        }
    }

    /// The number of the code, as it is sent.
    pub fn code(self) -> (r: u16)
        ensures
            r == self.number(),
            Self::of_number(r as u64) == self,
    {
        match self {
            ErrorCode::Unknown => 0,
            ErrorCode::Success => 200,
            ErrorCode::BadRequest => 400,
            ErrorCode::BadHandshake => 402,
            ErrorCode::LengthRequired => 411,
            ErrorCode::PayloadTooLarge => 413,
            ErrorCode::PayloadInsufficient => 414,
            ErrorCode::ClientClosed => 499,
            ErrorCode::InternalServerError => 500,
            ErrorCode::VersionNotSupported => 505,
        }
    }

    /// The code that a number received stands for.
    pub fn from_code(value: u64) -> (r: Self)
        ensures
            r == Self::of_number(value),
    {
        if value == 200 {
            ErrorCode::Success
        } else if value == 400 {
            ErrorCode::BadRequest
        } else if value == 402 {
            ErrorCode::BadHandshake
        } else if value == 411 {
            ErrorCode::LengthRequired
        } else if value == 413 {
            ErrorCode::PayloadTooLarge
        } else if value == 414 {
            ErrorCode::PayloadInsufficient
        } else if value == 499 {
            ErrorCode::ClientClosed
        } else if value == 500 {
            ErrorCode::InternalServerError
        } else if value == 505 {
            ErrorCode::VersionNotSupported
        } else {
            ErrorCode::Unknown
        }
    }

    /// The code as text: its number, a colon and the words that describe it.
    pub fn to_text(&self) -> (r: String)
        ensures
            r@ == decimal(self.number() as nat) + ": "@ + self.words(),
    {
        let mut out = String::new();
        push_decimal(&mut out, self.code() as u64);
        out.append(": ");
        let words = match self {
            ErrorCode::Unknown => "unknown",
            ErrorCode::Success => "ok",
            ErrorCode::BadRequest => "bad request",
            ErrorCode::BadHandshake => "bad handshake",
            ErrorCode::LengthRequired => "length required",
            ErrorCode::PayloadTooLarge => "payload too large",
            ErrorCode::PayloadInsufficient => "payload insufficient",
            ErrorCode::ClientClosed => "client closed",
            ErrorCode::InternalServerError => "internal server error",
            ErrorCode::VersionNotSupported => "version not supported",
        };
        out.append(words);
        assert(out@ =~= decimal(self.number() as nat) + ": "@ + self.words());
        out
    }

    /// The code that the failure to read a frame is reported with.
    pub fn from_read_error(error: &LengthReadError) -> (r: Self)
        ensures
            r == Self::of_read_error(*error),
    {
        match error {
            LengthReadError::Read => ErrorCode::ClientClosed,
            LengthReadError::ReadExact(ReadExactError::ReadError) => ErrorCode::ClientClosed,
            LengthReadError::StreamEnded => ErrorCode::ClientClosed,
            LengthReadError::ReadExact(ReadExactError::FinishedEarly(_)) => {
                ErrorCode::LengthRequired
            },
            LengthReadError::LengthMismatch { expected, received } => {
                if *received > *expected {
                    ErrorCode::PayloadTooLarge
                } else {
                    ErrorCode::PayloadInsufficient
                }
            },
            LengthReadError::Json => ErrorCode::BadRequest,
        }
    }

    /// The code that a refused handshake is reported with.
    pub fn from_handshake_error(error: &HandshakeError) -> (r: Self)
        ensures
            r == Self::of_handshake_error(*error),
    {
        match error {
            HandshakeError::UnsupportedVersion { .. } => ErrorCode::VersionNotSupported,
            HandshakeError::InsufficientLength { .. } => ErrorCode::LengthRequired,
            HandshakeError::InvalidMagic => ErrorCode::BadHandshake,
            HandshakeError::InvalidResponse => ErrorCode::BadHandshake,
            HandshakeError::InvalidIcao(_) => ErrorCode::BadHandshake,
        }
    }

    /// The code that the end of a peer's loop is reported with.
    pub fn from_loop_error(error: IoLoopError) -> (r: Self)
        ensures
            r == Self::of_loop_error(error),
    {
        match error {
            IoLoopError::Read(read) => Self::from_read_error(&read),
            IoLoopError::Write => ErrorCode::ClientClosed,
            IoLoopError::Jsonb => ErrorCode::InternalServerError,
        }
    }
}

/// Every code is found again from its number.
pub proof fn lemma_code_round_trip(code: ErrorCode)
    ensures
        ErrorCode::of_number(code.number() as u64) == code,
{
}

} // verus!
