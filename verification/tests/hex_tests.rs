use rpow2_miner::hexcodec::{decode_nonce_prefix, NoncePrefixError};

#[test]
fn decodes_lower_and_upper_case() {
    assert_eq!(decode_nonce_prefix("666f6f626172"), Ok(b"foobar".to_vec()));
    assert_eq!(decode_nonce_prefix("ABcd"), Ok(vec![0xab, 0xcd]));
    assert_eq!(decode_nonce_prefix("00ff10"), Ok(vec![0x00, 0xff, 0x10]));
}

#[test]
fn empty_prefix_is_empty() {
    assert_eq!(decode_nonce_prefix(""), Ok(vec![]));
}

#[test]
fn odd_length_is_invalid() {
    assert_eq!(decode_nonce_prefix("123"), Err(NoncePrefixError::InvalidHex));
}

#[test]
fn bad_digit_is_invalid() {
    assert_eq!(decode_nonce_prefix("66ag"), Err(NoncePrefixError::InvalidHex));
    assert_eq!(decode_nonce_prefix("é1"), Err(NoncePrefixError::InvalidHex));
}
