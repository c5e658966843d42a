use sealring::error::{Malformed, OpenError, ParseError, SealError};

#[test]
fn error_parse_error_into_inner_returns_input() {
    let input = vec![1u8, 2, 3];
    let err = ParseError::too_short(input.clone(), 10, 3);
    assert_eq!(err.into_inner(), input);
}

#[test]
fn parse_error_display_too_short() {
    let err = ParseError::too_short(vec![0u8], 10, 1);
    assert_eq!(err.to_string(), "envelope too short: 1 bytes, need at least 10");
}

#[test]
fn parse_error_display_wrong_version() {
    let err = ParseError::wrong_version(vec![0u8], 1, 2);
    assert_eq!(err.to_string(), "unexpected envelope version 2, expected 1");
}

#[test]
fn parse_error_display_wrong_kem_id() {
    let err = ParseError::wrong_kem_id(vec![0u8], 1, 2);
    assert_eq!(err.to_string(), "unexpected kem id 2, expected 1");
}

#[test]
fn parse_error_display_ct_too_long() {
    let err = ParseError::ct_too_long(vec![0u8], 65536, 65537);
    assert_eq!(err.to_string(), "ciphertext too long: 65537 bytes exceeds max 65536");
}

#[test]
fn seal_error_display() {
    assert_eq!(SealError.to_string(), "failed to seal note");
}

#[test]
fn open_error_display() {
    assert_eq!(OpenError::Aead.to_string(), "AEAD decryption failed after commit matched");
    assert_eq!(OpenError::NoteDecode.to_string(), "note decoding failed after commit matched");
    assert_eq!(
        OpenError::Verify.to_string(),
        "domain verification failed after commit matched"
    );
}

#[test]
fn malformed_display_wraps_open_error() {
    let err = Malformed(OpenError::Aead);
    assert_eq!(
        err.to_string(),
        "malformed envelope: AEAD decryption failed after commit matched"
    );
}

#[test]
fn decimal_rendering_of_zero_and_large_values() {
    let err = ParseError::too_short(vec![0u8], 0, 18446744073709551615usize);
    assert_eq!(
        err.to_string(),
        "envelope too short: 18446744073709551615 bytes, need at least 0"
    );
    let err = ParseError::wrong_kem_id(vec![0u8], 255, 0);
    assert_eq!(err.to_string(), "unexpected kem id 0, expected 255");
}

#[test]
fn malformed_source_is_the_wrapped_error() {
    assert_eq!(Malformed(OpenError::Verify).source(), OpenError::Verify);
    assert_eq!(Malformed(OpenError::NoteDecode).source(), OpenError::NoteDecode);
}
