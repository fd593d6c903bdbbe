//! Four-letter region codes.

use vstd::prelude::*;
use vstd::string::*;
use vstd::std_specs::convert::{TryFromSpec, TryFromSpecImpl};
use crate::text::{decimal, push_decimal};

verus! {

/// Whether `b` is an upper-case ASCII letter.
pub open spec fn is_upper(b: u8) -> bool {
    0x41 <= b <= 0x5a
}

/// Whether `bytes` is a region code: exactly four upper-case ASCII letters.
pub open spec fn is_code(bytes: Seq<u8>) -> bool {
    &&& bytes.len() == 4
    &&& forall|i: int| 0 <= i < 4 ==> is_upper(#[trigger] bytes[i])
}

/// Why a text or a byte string is no region code.
#[derive(Debug, Clone, Copy, PartialEq, Eq)]
pub enum IcaoError {
    InvalidLength { len: usize },
    InvalidCharacter { character: char, index: usize },
}

/// A region code: four upper-case ASCII letters.
#[derive(Copy, Clone, Hash, Eq, PartialEq, Debug)]
pub struct IcaoCode([u8; 4]);

/// Whether position `i` of `bytes` is the first that holds no upper-case letter.
pub open spec fn first_invalid_byte(bytes: Seq<u8>, i: int) -> bool {
    &&& 0 <= i < bytes.len()
    &&& !is_upper(bytes[i])
    &&& forall|j: int| 0 <= j < i ==> is_upper(#[trigger] bytes[j])
}

/// Whether `c` is an upper-case ASCII letter.
pub open spec fn is_upper_char(c: char) -> bool {
    'A' <= c && c <= 'Z'
}

/// Whether position `i` of `chars` is the first that holds no upper-case letter.
pub open spec fn first_invalid_char(chars: Seq<char>, i: int) -> bool {
    &&& 0 <= i < chars.len()
    &&& !is_upper_char(chars[i])
    &&& forall|j: int| 0 <= j < i ==> is_upper_char(#[trigger] chars[j])
}

/// What reading a region code from a text gives: the letters as bytes, the
/// length of the text in bytes where it is not four, or the first character
/// that is no upper-case letter.
pub open spec fn parse_text(chars: Seq<char>) -> Result<Seq<u8>, IcaoError> {
    let byte_len = vstd::utf8::encode_utf8(chars).len();
    if byte_len != 4 {
        Err(IcaoError::InvalidLength { len: byte_len as usize })
    } else if exists|i: int| first_invalid_char(chars, i) {
        let i = choose|i: int| first_invalid_char(chars, i);
        Err(IcaoError::InvalidCharacter { character: chars[i], index: i as usize })
    } else {
        Ok(Seq::new(chars.len(), |i: int| chars[i] as u8))
    }
}

/// The text of a code: its four letters as characters.
pub open spec fn code_text(bytes: Seq<u8>) -> Seq<char> {
    Seq::new(bytes.len(), |i: int| bytes[i] as char)
}

/// What reading a region code from bytes gives: the code itself, the length
/// where it is not four, or the first byte that is no upper-case letter.
pub open spec fn parse_bytes(bytes: Seq<u8>) -> Result<Seq<u8>, IcaoError> {
    if bytes.len() != 4 {
        Err(IcaoError::InvalidLength { len: bytes.len() as usize })
    } else if is_code(bytes) {
        Ok(bytes)
    } else {
        let i = choose|i: int| first_invalid_byte(bytes, i);
        Err(IcaoError::InvalidCharacter { character: bytes[i] as char, index: i as usize })
    }
}

impl IcaoCode {
    /// The four letters of the code.
    pub closed spec fn view(&self) -> Seq<u8> {
        self.0@
    }

    /// Every code holds four upper-case letters.
    #[verifier::type_invariant]
    pub open spec fn inv(self) -> bool {
        is_code(self@)
    }

    /// A code from four bytes that are known to be upper-case letters.
    pub fn new_testing(code: [u8; 4]) -> (r: Self)
        requires
            is_code(code@),
        ensures
            r@ == code@,
    {
        Self(code)
    }

    /// The four letters of the code.
    pub fn as_bytes(&self) -> (r: &[u8])
        ensures
            r@ == self@,
            is_code(r@),
    {
        proof {
            use_type_invariant(self);
        }
        self.0.as_slice()
    }

    /// The code as text.
    pub fn to_text(&self) -> (r: String)
        ensures
            r@ == code_text(self@),
    {
        let mut out = String::new();
        let mut i: usize = 0;
        while i < 4
            invariant
                i <= 4,
                out@ == code_text(self@.subrange(0, i as int)),
            decreases 4 - i,
        {
            out.push(self.0[i] as char);
            i += 1;
            assert(out@ =~= code_text(self@.subrange(0, i as int)));
        }
        assert(self@.subrange(0, 4) =~= self@);
        out
    }

    /// Reads a code from bytes: they must be four upper-case letters.
    pub fn from_bytes(value: &[u8]) -> (r: Result<Self, IcaoError>)
        ensures
            match r {
                Ok(code) => parse_bytes(value@) == Ok::<Seq<u8>, IcaoError>(code@),
                Err(e) => parse_bytes(value@) == Err::<Seq<u8>, IcaoError>(e),
            },
    {
        if value.len() != 4 {
            return Err(IcaoError::InvalidLength { len: value.len() });
        }
        let mut code = [0u8; 4];
        let mut index: usize = 0;
        while index < 4
            invariant
                index <= 4,
                value@.len() == 4,
                forall|j: int| 0 <= j < index ==> is_upper(#[trigger] value@[j]),
                forall|j: int| 0 <= j < index ==> code@[j] == value@[j],
            decreases 4 - index,
        {
            let c = value[index];
            if c < 0x41 || c > 0x5a {
                proof {
                    assert(first_invalid_byte(value@, index as int));
                    let i = choose|i: int| first_invalid_byte(value@, i);
                    assert(i == index);
                }
                return Err(IcaoError::InvalidCharacter { character: c as char, index });
            }
            code[index] = c;
            index += 1;
        }
        assert(code@ =~= value@);
        Ok(Self(code))
    }

    /// Reads a code from text: it must be four upper-case letters.
    pub fn parse(input: &str) -> (r: Result<Self, IcaoError>)
        ensures
            match r {
                Ok(code) => parse_text(input@) == Ok::<Seq<u8>, IcaoError>(code@),
                Err(e) => parse_text(input@) == Err::<Seq<u8>, IcaoError>(e),
            },
    {
        broadcast use vstd::string::is_ascii_spec_bytes;

        let byte_len = input.as_bytes().len();
        if byte_len != 4 {
            return Err(IcaoError::InvalidLength { len: byte_len });
        }
        let count = input.unicode_len();
        proof {
            crate::text::lemma_utf8_len_bound(input@);
        }
        let mut code = [0u8; 4];
        let mut index: usize = 0;
        while index < count
            invariant
                index <= count,
                count == input@.len(),
                count <= 4,
                input.spec_bytes().len() == 4,
                forall|j: int| 0 <= j < index ==> is_upper_char(#[trigger] input@[j]),
                forall|j: int| 0 <= j < index ==> code@[j] == input@[j] as u8,
            decreases count - index,
        {
            let character = input.get_char(index);
            if character < 'A' || character > 'Z' {
                proof {
                    assert(first_invalid_char(input@, index as int));
                    let i = choose|i: int| first_invalid_char(input@, i);
                    assert(i == index);
                }
                return Err(IcaoError::InvalidCharacter { character, index });
            }
            code[index] = character as u8;
            index += 1;
        }
        proof {
            assert(vstd::utf8::is_ascii_chars(input@));
            assert(is_ascii(input));
            assert(input@.len() == 4);
            assert(code@ =~= Seq::new(input@.len(), |i: int| input@[i] as u8));
            assert forall|i: int| 0 <= i < 4 implies is_upper(#[trigger] code@[i]) by {
                assert(is_upper_char(input@[i]));
            }
        }
        Ok(Self(code))
    }
}

impl Default for IcaoCode {
    /// The code of an unknown region, `XXXX`.
    fn default() -> (r: Self)
        ensures
            r@ == seq![0x58u8, 0x58u8, 0x58u8, 0x58u8],
    {
        Self([0x58u8, 0x58u8, 0x58u8, 0x58u8])
    }
}

impl IcaoError {
    /// The words that say what is wrong.
    pub open spec fn words(self) -> Seq<char> {
        match self {
            IcaoError::InvalidLength { len } => "expected a length of 4 but got a length of "@
                + decimal(len as nat),
            IcaoError::InvalidCharacter { character, index } => "invalid character '"@.push(
                character,
            ) + "' was found at index "@ + decimal(index as nat),
        }
    }

    /// The fault in words.
    pub fn message(&self) -> (r: String)
        ensures
            r@ == self.words(),
    {
        match self {
            IcaoError::InvalidLength { len } => {
                let mut out = String::from_str("expected a length of 4 but got a length of ");
                push_decimal(&mut out, *len as u64);
                out
            },
            IcaoError::InvalidCharacter { character, index } => {
                let mut out = String::from_str("invalid character '");
                out.push(*character);
                out.append("' was found at index ");
                push_decimal(&mut out, *index as u64);
                assert(out@ =~= self.words());
                out
            },
        }
    }

    /// The kind of the fault in words.
    pub fn description(&self) -> (r: &'static str)
        ensures
            r@ == match *self {
                IcaoError::InvalidLength { .. } => "the length of the code was invalid"@,
                IcaoError::InvalidCharacter { .. } => "an invalid character was found"@,
            },
    {
        match self {
            IcaoError::InvalidLength { .. } => "the length of the code was invalid",
            IcaoError::InvalidCharacter { .. } => "an invalid character was found",
        }
    }
}

impl std::str::FromStr for IcaoCode {
    type Err = IcaoError;

    fn from_str(input: &str) -> (r: Result<Self, IcaoError>)
        ensures
            match r {
                Ok(code) => parse_text(input@) == Ok::<Seq<u8>, IcaoError>(code@),
                Err(e) => parse_text(input@) == Err::<Seq<u8>, IcaoError>(e),
            },
    {
        IcaoCode::parse(input)
    }
}

impl<'s> TryFrom<&'s [u8]> for IcaoCode {
    type Error = IcaoError;

    fn try_from(value: &'s [u8]) -> (r: Result<Self, IcaoError>)
        ensures
            match r {
                Ok(code) => parse_bytes(value@) == Ok::<Seq<u8>, IcaoError>(code@),
                Err(e) => parse_bytes(value@) == Err::<Seq<u8>, IcaoError>(e),
            },
    {
        let r = IcaoCode::from_bytes(value);
        proof {
            match r {
                Ok(code) => {
                    assert(code.0 =~= IcaoCode::of_letters(value@).0);
                    assert(code == IcaoCode::of_letters(value@));
                },
                Err(_) => {},
            }
        }
        r
    }
}

impl<'s> TryFromSpecImpl<&'s [u8]> for IcaoCode {
    open spec fn obeys_try_from_spec() -> bool {
        true
    }

    open spec fn try_from_spec(value: &'s [u8]) -> Result<Self, IcaoError> {
        match parse_bytes(value@) {
            Ok(letters) => Ok(IcaoCode::of_letters(letters)),
            Err(e) => Err(e),
        }
    }
}

impl IcaoCode {
    /// The code of the given four letters.
    pub closed spec fn of_letters(letters: Seq<u8>) -> IcaoCode {
        IcaoCode([letters[0], letters[1], letters[2], letters[3]])
    }
}

/// The code of four letters holds those letters.
pub proof fn lemma_of_letters(letters: Seq<u8>)
    requires
        letters.len() == 4,
    ensures
        IcaoCode::of_letters(letters)@ == letters,
{
    assert(IcaoCode::of_letters(letters)@ =~= letters);
}

/// What the conversion from bytes gives is what reading the bytes gives:
/// the code of the four letters, or the same fault.
pub proof fn lemma_try_from(value: &[u8])
    ensures
        match <IcaoCode as TryFromSpec<&[u8]>>::try_from_spec(value) {
            Ok(code) => parse_bytes(value@) == Ok::<Seq<u8>, IcaoError>(code@),
            Err(e) => parse_bytes(value@) == Err::<Seq<u8>, IcaoError>(e),
        },
{
    match parse_bytes(value@) {
        Ok(letters) => {
            lemma_of_letters(letters);
        },
        Err(_) => {},
    }
}

/// Four bytes of which one is no upper-case letter are refused with the
/// first such byte and its position.
pub proof fn lemma_first_invalid_byte(bytes: Seq<u8>, i: int)
    requires
        bytes.len() == 4,
        first_invalid_byte(bytes, i),
    ensures
        parse_bytes(bytes) == Err::<Seq<u8>, IcaoError>(
            IcaoError::InvalidCharacter { character: bytes[i] as char, index: i as usize },
        ),
{
    let chosen = choose|k: int| first_invalid_byte(bytes, k);
    assert(chosen == i);
}

/// Four bytes are a code, or one of them is the first that is no upper-case letter.
pub proof fn lemma_code_or_first_invalid_byte(bytes: Seq<u8>)
    requires
        bytes.len() == 4,
    ensures
        is_code(bytes) || exists|i: int| first_invalid_byte(bytes, i),
{
    if !is_upper(bytes[0]) {
        assert(first_invalid_byte(bytes, 0));
    } else if !is_upper(bytes[1]) {
        assert(first_invalid_byte(bytes, 1));
    } else if !is_upper(bytes[2]) {
        assert(first_invalid_byte(bytes, 2));
    } else if !is_upper(bytes[3]) {
        assert(first_invalid_byte(bytes, 3));
    }
}

/// A text of four bytes of which one character is no upper-case letter is
/// refused with the first such character and its position.
pub proof fn lemma_first_invalid_char(chars: Seq<char>, i: int)
    requires
        vstd::utf8::encode_utf8(chars).len() == 4,
        first_invalid_char(chars, i),
    ensures
        parse_text(chars) == Err::<Seq<u8>, IcaoError>(
            IcaoError::InvalidCharacter { character: chars[i], index: i as usize },
        ),
{
    let chosen = choose|k: int| first_invalid_char(chars, k);
    assert(chosen == i);
}

/// The text of a code is read back as the code.
pub proof fn lemma_text_round_trip(code: Seq<u8>)
    requires
        is_code(code),
    ensures
        parse_text(code_text(code)) == Ok::<Seq<u8>, IcaoError>(code),
        parse_bytes(code) == Ok::<Seq<u8>, IcaoError>(code),
{
    let text = code_text(code);
    assert forall|i: int| 0 <= i < text.len() implies is_upper_char(#[trigger] text[i]) by {
        assert(is_upper(code[i]));
    }
    assert(vstd::utf8::is_ascii_chars(text));
    vstd::utf8::is_ascii_chars_encode_utf8(text);
    assert(Seq::new(text.len(), |i: int| text[i] as u8) =~= code);
}

} // verus!
