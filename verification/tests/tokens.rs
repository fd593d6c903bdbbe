use corrosion::tokens::{deserialize_token_set, TokenSet, TokenSetError};
use data_encoding::BASE64_NOPAD;

fn set(tokens: &[&[u8]]) -> TokenSet {
    TokenSet::from_tokens(tokens.iter().map(|t| t.to_vec()).collect())
}

#[test]
fn single_token_follows_a_one() {
    let ts = set(&[&[0x01, 0x02, 0x03, 0x04]]);
    assert_eq!(ts.encode_blob(), vec![0x01, 0x01, 0x02, 0x03, 0x04]);
    assert_eq!(
        ts.encode().unwrap(),
        BASE64_NOPAD.encode(&[0x01, 0x01, 0x02, 0x03, 0x04])
    );
}

#[test]
fn tokens_of_one_length_are_concatenated() {
    let ts = set(&[&[0xAA, 0xBB], &[0xCC, 0xDD]]);
    assert_eq!(ts.encode_blob(), vec![0x82, 0xAA, 0xBB, 0xCC, 0xDD]);
    assert_eq!(
        ts.encode().unwrap(),
        BASE64_NOPAD.encode(&[0x82, 0xAA, 0xBB, 0xCC, 0xDD])
    );
}

#[test]
fn tokens_of_mixed_lengths_are_prefixed() {
    let ts = set(&[&[0xBB, 0xCC], &[0xAA]]);
    assert_eq!(ts.encode_blob(), vec![0x02, 0x01, 0xAA, 0x02, 0xBB, 0xCC]);
    assert_eq!(
        ts.encode().unwrap(),
        BASE64_NOPAD.encode(&[0x02, 0x01, 0xAA, 0x02, 0xBB, 0xCC])
    );
}

#[test]
fn empty_set_has_no_text() {
    assert_eq!(TokenSet::new().encode(), None);
    assert!(TokenSet::new().encode_blob().is_empty());
    assert_eq!(deserialize_token_set("").unwrap(), TokenSet::new());
}

#[test]
fn single_empty_token() {
    let ts = set(&[&[]]);
    assert_eq!(ts.encode_blob(), vec![0x01]);
    assert_eq!(TokenSet::decode_blob(&[0x01]).unwrap(), ts);
}

#[test]
fn long_tokens_of_one_length_are_prefixed() {
    let a = vec![1u8; 200];
    let b = vec![2u8; 200];
    let ts = TokenSet::from_tokens(vec![a.clone(), b.clone()]);
    let blob = ts.encode_blob();
    assert_eq!(blob[0], 2);
    assert_eq!(blob[1], 200);
    assert_eq!(blob.len(), 1 + 2 * 201);
    assert_eq!(TokenSet::decode_blob(&blob).unwrap(), ts);
}

#[test]
fn duplicates_collapse() {
    let ts = set(&[&[1, 2], &[1, 2], &[0]]);
    assert_eq!(ts.len(), 2);
    assert_eq!(ts.get(0), &[0]);
    assert_eq!(ts.get(1), &[1, 2]);
    assert!(ts.contains(&[1, 2]));
    assert!(!ts.contains(&[1]));
}

#[test]
fn text_round_trip() {
    for ts in [
        set(&[&[20, 20]]),
        set(&[&[1], &[2], &[3]]),
        set(&[&[1], &[2, 2], &[3, 3, 3], &[]]),
        set(&[&[9; 127], &[8; 127]]),
        set(&[&[9; 128], &[8; 128]]),
    ] {
        assert!(ts.is_encodable());
        let text = ts.encode().unwrap();
        assert_eq!(deserialize_token_set(&text).unwrap(), ts);
    }
}

#[test]
fn largest_encodable_set() {
    let tokens: Vec<Vec<u8>> = (0..127u8).map(|i| vec![i; 255]).collect();
    let ts = TokenSet::from_tokens(tokens);
    assert!(ts.is_encodable());
    let text = ts.encode().unwrap();
    assert_eq!(deserialize_token_set(&text).unwrap(), ts);

    let tokens: Vec<Vec<u8>> = (0..128u8).map(|i| vec![i]).collect();
    assert!(!TokenSet::from_tokens(tokens).is_encodable());
    assert!(!set(&[&[0; 256]]).is_encodable());
}

#[test]
fn declared_length_beyond_the_blob_is_refused() {
    assert_eq!(
        TokenSet::decode_blob(&[0x02, 0x01, 0xAA, 0x03, 0xBB, 0xCC]),
        Err(TokenSetError::TokenTooLong {
            len: 3,
            remaining: 2
        })
    );
    let text = BASE64_NOPAD.encode(&[0x02, 0x01, 0xAA, 0x03, 0xBB, 0xCC]);
    assert_eq!(
        deserialize_token_set(&text),
        Err(TokenSetError::TokenTooLong {
            len: 3,
            remaining: 2
        })
    );
}

#[test]
fn faulty_blobs_are_refused() {
    assert_eq!(
        TokenSet::decode_blob(&[0x00, 0x01]),
        Err(TokenSetError::InvalidHeader)
    );
    assert_eq!(
        TokenSet::decode_blob(&[0x80, 0x01]),
        Err(TokenSetError::ZeroStride)
    );
    assert_eq!(
        TokenSet::decode_blob(&[0x02, 0x01, 0xAA]),
        Err(TokenSetError::MissingLength)
    );
    assert_eq!(deserialize_token_set("!"), Err(TokenSetError::Base64));
}

#[test]
fn uniform_blob_drops_a_short_tail() {
    let ts = TokenSet::decode_blob(&[0x82, 1, 2, 3, 4, 5]).unwrap();
    assert_eq!(ts, set(&[&[1, 2], &[3, 4]]));
}

#[test]
fn token_faults_in_words() {
    assert_eq!(
        TokenSetError::TokenTooLong {
            len: 3,
            remaining: 2
        }
        .message(),
        "token length 3 is longer than remaining binary slice"
    );
    assert_eq!(
        TokenSetError::Base64.message(),
        "text is not unpadded base64"
    );
}

#[test]
fn clone_is_the_same_set() {
    let ts = set(&[&[3], &[1, 2], &[]]);
    assert_eq!(ts.clone(), ts);
    let mut grown = ts.clone();
    assert!(grown.insert(vec![9]));
    assert!(!grown.insert(vec![9]));
    assert_eq!(grown.len(), 4);
    assert_eq!(ts.len(), 3);
    assert!(!ts.is_empty());
}
