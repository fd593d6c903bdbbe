//! Unpadded base64, as the `data-encoding` crate computes it.

use vstd::prelude::*;
use data_encoding::{DecodeError, BASE64_NOPAD};

verus! {

/// `data_encoding::DecodeError`: where and why a text is no base64. Nothing
/// is read from it.
#[verifier::external_type_specification]
#[verifier::external_body]
pub struct ExDecodeError(DecodeError);

/// The unpadded base64 text of `bytes`.
pub uninterp spec fn base64_nopad(bytes: Seq<u8>) -> Seq<char>;

/// The bytes that `text` stands for in unpadded base64, if it is such a text.
pub uninterp spec fn base64_nopad_decoded(text: Seq<char>) -> Option<Seq<u8>>;

/// The most bytes that `BASE64_NOPAD.encode` takes: beyond them it may panic.
pub open spec fn max_encoded() -> int {
    (usize::MAX / 512) as int
}

/// The most bytes of text that `BASE64_NOPAD.decode` takes: beyond them it may panic.
pub open spec fn max_decoded() -> int {
    (usize::MAX / 8) as int
}

/// The number of bytes of the unpadded base64 text of `len` bytes: one for
/// every six bits, the last of them filled up.
pub open spec fn encoded_len(len: int) -> int {
    (8 * len + 5) / 6
}

/// `BASE64_NOPAD.encode` gives the unpadded base64 text of `bytes`, which
/// has `encode_len` bytes; decoding that text gives `bytes` again. It may
/// panic on more than `usize::MAX / 512` bytes.
#[verifier::external_body]
pub(crate) fn encode(bytes: &[u8]) -> (text: String)
    requires
        bytes@.len() <= max_encoded(),
    ensures
        text@ == base64_nopad(bytes@),
        base64_nopad_decoded(text@) == Some(bytes@),
        vstd::utf8::encode_utf8(text@).len() == encoded_len(bytes@.len() as int),
{
    BASE64_NOPAD.encode(bytes)
}

/// `BASE64_NOPAD.decode` gives the bytes that `text` stands for, or an error
/// where `text` is no unpadded base64. It may panic on a text of more than
/// `usize::MAX / 8` bytes.
#[verifier::external_body]
pub(crate) fn decode(text: &str) -> (r: Result<Vec<u8>, DecodeError>)
    requires
        vstd::utf8::encode_utf8(text@).len() <= max_decoded(),
    ensures
        match r {
            Ok(bytes) => base64_nopad_decoded(text@) == Some(bytes@),
            Err(_) => base64_nopad_decoded(text@) is None,
        },
{
    BASE64_NOPAD.decode(text.as_bytes())
}

} // verus!
