use onep::hotp::{hotp, HashAlgorithm};
use onep::otp::{OtpParameters, TwoFactorAuth};
use onep::OtpError;

const RFC4226_KEY: &[u8] = b"12345678901234567890";
const RFC6238_KEY_SHA1: &[u8] = b"12345678901234567890";
const RFC6238_KEY_SHA256: &[u8] = b"12345678901234567890123456789012";
const RFC6238_KEY_SHA512: &[u8] =
    b"1234567890123456789012345678901234567890123456789012345678901234";

fn totp(key: &[u8], algorithm: HashAlgorithm, now: u64) -> String {
    let params = OtpParameters {
        secret: key.to_vec(),
        digits: 8,
        period: 30,
        algorithm,
    };
    params.totp_at(now)
}

#[test]
fn rfc4226_hotp_vectors() {
    let expected = [
        "755224", "287082", "359152", "969429", "338314", "254676", "287922", "162583", "399871",
        "520489",
    ];
    for (counter, want) in expected.iter().enumerate() {
        assert_eq!(
            hotp(RFC4226_KEY, counter as u64, 6, HashAlgorithm::Sha1),
            *want
        );
    }
}

#[test]
fn rfc6238_totp_vectors_sha1() {
    let table = [
        (59u64, "94287082"),
        (1111111109, "07081804"),
        (1111111111, "14050471"),
        (1234567890, "89005924"),
        (2000000000, "69279037"),
        (20000000000, "65353130"),
    ];
    for (now, want) in table {
        assert_eq!(totp(RFC6238_KEY_SHA1, HashAlgorithm::Sha1, now), want);
    }
}

#[test]
fn rfc6238_totp_vectors_sha256() {
    let table = [
        (59u64, "46119246"),
        (1111111109, "68084774"),
        (1111111111, "67062674"),
        (1234567890, "91819424"),
        (2000000000, "90698825"),
        (20000000000, "77737706"),
    ];
    for (now, want) in table {
        assert_eq!(totp(RFC6238_KEY_SHA256, HashAlgorithm::Sha256, now), want);
    }
}

#[test]
fn rfc6238_totp_vectors_sha512() {
    let table = [
        (59u64, "90693936"),
        (1111111109, "25091201"),
        (1111111111, "99943326"),
        (1234567890, "93441116"),
        (2000000000, "38618901"),
        (20000000000, "47863826"),
    ];
    for (now, want) in table {
        assert_eq!(totp(RFC6238_KEY_SHA512, HashAlgorithm::Sha512, now), want);
    }
}

#[test]
fn generation_is_deterministic() {
    let first = hotp(RFC4226_KEY, 7, 8, HashAlgorithm::Sha256);
    let second = hotp(RFC4226_KEY, 7, 8, HashAlgorithm::Sha256);
    assert_eq!(first, second);
    let a = totp(RFC6238_KEY_SHA1, HashAlgorithm::Sha1, 59);
    let b = totp(RFC6238_KEY_SHA1, HashAlgorithm::Sha1, 59);
    assert_eq!(a, b);
}

#[test]
fn code_length_equals_digits() {
    for digits in 1u32..=10 {
        let code = hotp(RFC4226_KEY, 3, digits, HashAlgorithm::Sha1);
        assert_eq!(code.len(), digits as usize);
    }
}

#[test]
fn codes_are_zero_padded() {
    // RFC 6238, T = 1111111109, SHA-1: the 8-digit code starts with a zero
    assert_eq!(totp(RFC6238_KEY_SHA1, HashAlgorithm::Sha1, 1111111109), "07081804");
}

#[test]
fn validate_accepts_legal_parameters() {
    let params = OtpParameters {
        secret: b"Hello".to_vec(),
        digits: 6,
        period: 30,
        algorithm: HashAlgorithm::Sha1,
    };
    assert!(params.validate().is_ok());
}

#[test]
fn validate_rejects_empty_secret() {
    let params = OtpParameters {
        secret: Vec::new(),
        digits: 6,
        period: 30,
        algorithm: HashAlgorithm::Sha1,
    };
    assert_eq!(params.validate().unwrap_err(), OtpError::InvalidEncoding);
}

#[test]
fn validate_rejects_digit_count_out_of_range() {
    for digits in [0u32, 11, 100] {
        let params = OtpParameters {
            secret: b"Hello".to_vec(),
            digits,
            period: 30,
            algorithm: HashAlgorithm::Sha1,
        };
        assert_eq!(params.validate().unwrap_err(), OtpError::InvalidParameter);
    }
}

#[test]
fn validate_rejects_zero_period() {
    let params = OtpParameters {
        secret: b"Hello".to_vec(),
        digits: 6,
        period: 0,
        algorithm: HashAlgorithm::Sha1,
    };
    assert_eq!(params.validate().unwrap_err(), OtpError::InvalidParameter);
}

#[test]
fn uri_end_to_end_matches_rfc_vector() {
    // GEZDGNBVGY3TQOJQGEZDGNBVGY3TQOJQ is base32 for the RFC test key
    let tfa = TwoFactorAuth::try_from(
        "otpauth://totp/ACME:bob?secret=GEZDGNBVGY3TQOJQGEZDGNBVGY3TQOJQ&digits=8",
    )
    .unwrap();
    assert_eq!(tfa.generate_at(59).value, "94287082");
    assert_eq!(tfa.generate_at(1111111109).value, "07081804");
}

#[test]
fn raw_secret_uses_default_parameters() {
    let tfa = TwoFactorAuth::try_from("JBSWY3DP").unwrap();
    let TwoFactorAuth::Totp(params) = &tfa;
    assert_eq!(params.secret, b"Hello".to_vec());
    assert_eq!(params.digits, 6);
    assert_eq!(params.period, 30);
    assert!(matches!(params.algorithm, HashAlgorithm::Sha1));
    assert_eq!(tfa.generate_at(59).value.len(), 6);
}

#[test]
fn generate_reads_the_clock_and_keeps_the_length() {
    let tfa = TwoFactorAuth::try_from("JBSWY3DP").unwrap();
    let response = tfa.generate();
    assert_eq!(response.value.len(), 6);
    assert!(response.value.bytes().all(|b| b.is_ascii_digit()));
}

#[test]
fn truncation_of_the_rfc_reference_digest() {
    // RFC 4226, appendix D: the HMAC-SHA-1 digest for counter 0 of the
    // reference key, and the code it truncates to
    let digest: Vec<u8> = vec![
        0xcc, 0x93, 0xcf, 0x18, 0x50, 0x8d, 0x94, 0x93, 0x4c, 0x64, 0xb6, 0x5d, 0x8b, 0xa7, 0x66,
        0x7f, 0xb7, 0xcd, 0xe4, 0xb0,
    ];
    assert_eq!(onep::hotp::truncate_code(&digest, 6), "755224");
    assert_eq!(onep::hotp::truncate_code(&digest, 10), "1284755224");
}

#[test]
fn codes_are_stable_within_a_period() {
    let tfa = TwoFactorAuth::try_from("JBSWY3DP").unwrap();
    assert_eq!(tfa.generate_at(30).value, tfa.generate_at(59).value);
    assert_ne!(tfa.generate_at(59).value, tfa.generate_at(60).value);
}
