use corrosion::icao::{IcaoCode, IcaoError};
use std::str::FromStr;

#[test]
fn four_upper_case_letters_are_a_code() {
    let code = IcaoCode::parse("EGLL").unwrap();
    assert_eq!(code.as_bytes(), b"EGLL");
    assert_eq!(code.to_text(), "EGLL");
    assert_eq!(code, IcaoCode::new_testing(*b"EGLL"));
    assert_eq!(IcaoCode::from_bytes(b"AZAZ").unwrap().to_text(), "AZAZ");
    assert_eq!("KSFO".parse::<IcaoCode>().unwrap().to_text(), "KSFO");
    assert_eq!(IcaoCode::try_from(&b"KSFO"[..]).unwrap().to_text(), "KSFO");
}

#[test]
fn default_code_is_xxxx() {
    assert_eq!(IcaoCode::default().as_bytes(), b"XXXX");
}

#[test]
fn other_lengths_are_refused() {
    assert_eq!(
        IcaoCode::parse("EGL"),
        Err(IcaoError::InvalidLength { len: 3 })
    );
    assert_eq!(
        IcaoCode::parse(""),
        Err(IcaoError::InvalidLength { len: 0 })
    );
    assert_eq!(
        IcaoCode::from_bytes(b"EGLLX"),
        Err(IcaoError::InvalidLength { len: 5 })
    );
    // The length is counted in bytes
    assert_eq!(
        IcaoCode::parse("ÉGLL"),
        Err(IcaoError::InvalidLength { len: 5 })
    );
}

#[test]
fn first_invalid_character_is_named() {
    assert_eq!(
        IcaoCode::parse("EgLl"),
        Err(IcaoError::InvalidCharacter {
            character: 'g',
            index: 1
        })
    );
    assert_eq!(
        IcaoCode::parse("ABC1"),
        Err(IcaoError::InvalidCharacter {
            character: '1',
            index: 3
        })
    );
    assert_eq!(
        IcaoCode::from_bytes(b"@BCD"),
        Err(IcaoError::InvalidCharacter {
            character: '@',
            index: 0
        })
    );
    assert_eq!(
        IcaoCode::from_bytes(b"ABC["),
        Err(IcaoError::InvalidCharacter {
            character: '[',
            index: 3
        })
    );
    // Four bytes, but fewer characters
    assert_eq!(
        IcaoCode::parse("AÉB"),
        Err(IcaoError::InvalidCharacter {
            character: 'É',
            index: 1
        })
    );
}

#[test]
fn code_faults_in_words() {
    assert_eq!(
        IcaoError::InvalidLength { len: 12 }.message(),
        "expected a length of 4 but got a length of 12"
    );
    assert_eq!(
        IcaoError::InvalidCharacter {
            character: 'x',
            index: 2
        }
        .message(),
        "invalid character 'x' was found at index 2"
    );
    assert_eq!(
        IcaoError::InvalidLength { len: 12 }.description(),
        "the length of the code was invalid"
    );
    assert_eq!(
        IcaoError::InvalidCharacter {
            character: 'x',
            index: 2
        }
        .description(),
        "an invalid character was found"
    );
}

#[test]
fn text_is_read_through_the_standard_trait() {
    assert_eq!(IcaoCode::from_str("EGLL"), IcaoCode::parse("EGLL"));
    assert_eq!(
        IcaoCode::from_str("EGL"),
        Err(IcaoError::InvalidLength { len: 3 })
    );
    assert_eq!(
        IcaoCode::from_str("EG1L"),
        Err(IcaoError::InvalidCharacter {
            character: '1',
            index: 2
        })
    );
}
