use onep::base32::{decode, encode};
use onep::OtpError;

#[test]
fn decode_standard_block() {
    assert_eq!(decode("JBSWY3DP").unwrap(), b"Hello".to_vec());
}

#[test]
fn decode_is_case_insensitive() {
    assert_eq!(decode("jbswy3dp").unwrap(), decode("JBSWY3DP").unwrap());
    assert_eq!(decode("JbSwY3dP").unwrap(), b"Hello".to_vec());
}

#[test]
fn decode_ignores_embedded_spaces() {
    assert_eq!(decode("JBSW Y3DP").unwrap(), decode("JBSWY3DP").unwrap());
    assert_eq!(decode("  JB SW Y3 DP  ").unwrap(), b"Hello".to_vec());
}

#[test]
fn decode_ignores_other_ascii_whitespace() {
    assert_eq!(decode("JBSW\tY3DP\n").unwrap(), b"Hello".to_vec());
}

#[test]
fn decode_accepts_padding() {
    assert_eq!(decode("MZXW6===").unwrap(), b"foo".to_vec());
}

#[test]
fn decode_accepts_unpadded_partial_group() {
    assert_eq!(decode("MZXW6").unwrap(), b"foo".to_vec());
    assert_eq!(decode("MZXQ").unwrap(), b"fo".to_vec());
    assert_eq!(decode("MY").unwrap(), b"f".to_vec());
}

#[test]
fn decode_empty_is_empty() {
    assert_eq!(decode("").unwrap(), Vec::<u8>::new());
    assert_eq!(decode("   ").unwrap(), Vec::<u8>::new());
}

#[test]
fn decode_rejects_character_outside_alphabet() {
    assert_eq!(decode("MZXW1").unwrap_err(), OtpError::InvalidEncoding);
    assert_eq!(decode("ABC!").unwrap_err(), OtpError::InvalidEncoding);
    assert_eq!(decode("A0").unwrap_err(), OtpError::InvalidEncoding);
}

#[test]
fn decode_rejects_nonzero_leftover_bits() {
    // "MZXW7" leaves a one bit behind after the last full byte
    assert_eq!(decode("MZXW7").unwrap_err(), OtpError::InvalidEncoding);
}

#[test]
fn decode_rejects_padding_in_the_middle() {
    assert_eq!(decode("=ABC").unwrap_err(), OtpError::InvalidEncoding);
    assert_eq!(decode("MZ=XW6").unwrap_err(), OtpError::InvalidEncoding);
}

#[test]
fn encode_known_values() {
    assert_eq!(encode(b"foo"), "MZXW6");
    assert_eq!(encode(b"Hello"), "JBSWY3DP");
    assert_eq!(encode(b""), "");
}

#[test]
fn encode_then_decode_round_trips() {
    let cases: Vec<Vec<u8>> = vec![
        vec![],
        vec![0],
        vec![255],
        vec![1, 2],
        vec![250, 251, 252],
        vec![9, 8, 7, 6],
        vec![0, 0, 0, 0, 0],
        vec![1, 2, 3, 4, 5, 6, 7, 8, 9, 10, 11],
        b"12345678901234567890".to_vec(),
    ];
    for bytes in cases {
        let text = encode(&bytes);
        assert_eq!(decode(&text).unwrap(), bytes);
    }
}
