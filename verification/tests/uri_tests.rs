use onep::hotp::HashAlgorithm;
use onep::otp::TwoFactorAuth;
use onep::OtpError;

fn parse(key: &str) -> Result<onep::otp::OtpParameters, OtpError> {
    match TwoFactorAuth::try_from(key) {
        Ok(TwoFactorAuth::Totp(params)) => Ok(params),
        Err(e) => Err(e),
    }
}

#[test]
fn uri_with_every_parameter() {
    let params = parse(
        "otpauth://totp/ACME:bob?secret=JBSWY3DP&digits=7&period=60&algorithm=sha256",
    )
    .unwrap();
    assert_eq!(params.secret, b"Hello".to_vec());
    assert_eq!(params.digits, 7);
    assert_eq!(params.period, 60);
    assert!(matches!(params.algorithm, HashAlgorithm::Sha256));
}

#[test]
fn uri_defaults_for_absent_parameters() {
    let params = parse("otpauth://totp/ACME:bob?secret=JBSWY3DP").unwrap();
    assert_eq!(params.secret, b"Hello".to_vec());
    assert_eq!(params.digits, 6);
    assert_eq!(params.period, 30);
    assert!(matches!(params.algorithm, HashAlgorithm::Sha1));
}

#[test]
fn uri_extra_parameters_are_ignored() {
    let params = parse("otpauth://totp/x?issuer=ACME&secret=JBSWY3DP&foo=bar").unwrap();
    assert_eq!(params.secret, b"Hello".to_vec());
}

#[test]
fn uri_without_secret_is_malformed() {
    assert_eq!(parse("otpauth://totp/ACME:bob").unwrap_err(), OtpError::MalformedUri);
    assert_eq!(parse("otpauth://totp/x?digits=6").unwrap_err(), OtpError::MalformedUri);
}

#[test]
fn uri_with_unparsable_digits_fails_loud() {
    // an explicit but invalid value must not fall back to the default
    assert_eq!(
        parse("otpauth://totp/x?secret=JBSWY3DP&digits=abc").unwrap_err(),
        OtpError::MalformedUri
    );
    assert_eq!(
        parse("otpauth://totp/x?secret=JBSWY3DP&digits=").unwrap_err(),
        OtpError::MalformedUri
    );
}

#[test]
fn uri_with_unparsable_period_fails_loud() {
    assert_eq!(
        parse("otpauth://totp/x?secret=JBSWY3DP&period=1m").unwrap_err(),
        OtpError::MalformedUri
    );
}

#[test]
fn uri_with_unknown_algorithm_is_unsupported() {
    assert_eq!(
        parse("otpauth://totp/x?secret=JBSWY3DP&algorithm=md5").unwrap_err(),
        OtpError::UnsupportedAlgorithm
    );
    // the tokens are matched in their lower-case form only
    assert_eq!(
        parse("otpauth://totp/x?secret=JBSWY3DP&algorithm=SHA1").unwrap_err(),
        OtpError::UnsupportedAlgorithm
    );
}

#[test]
fn uri_algorithm_tokens() {
    for (token, want) in [
        ("sha1", HashAlgorithm::Sha1),
        ("sha256", HashAlgorithm::Sha256),
        ("sha512", HashAlgorithm::Sha512),
    ] {
        let uri = format!("otpauth://totp/x?secret=JBSWY3DP&algorithm={}", token);
        let params = parse(&uri).unwrap();
        assert!(params.algorithm == want);
    }
}

#[test]
fn uri_with_digits_out_of_range_is_invalid() {
    assert_eq!(
        parse("otpauth://totp/x?secret=JBSWY3DP&digits=0").unwrap_err(),
        OtpError::InvalidParameter
    );
    assert_eq!(
        parse("otpauth://totp/x?secret=JBSWY3DP&digits=11").unwrap_err(),
        OtpError::InvalidParameter
    );
}

#[test]
fn uri_with_zero_period_is_invalid() {
    assert_eq!(
        parse("otpauth://totp/x?secret=JBSWY3DP&period=0").unwrap_err(),
        OtpError::InvalidParameter
    );
}

#[test]
fn uri_with_bad_secret_is_an_encoding_error() {
    assert_eq!(
        parse("otpauth://totp/x?secret=notbase32!").unwrap_err(),
        OtpError::InvalidEncoding
    );
    assert_eq!(
        parse("otpauth://totp/x?secret=").unwrap_err(),
        OtpError::InvalidEncoding
    );
}

#[test]
fn uri_first_occurrence_of_a_parameter_wins() {
    let params = parse("otpauth://totp/x?secret=JBSWY3DP&digits=8&digits=9").unwrap();
    assert_eq!(params.digits, 8);
}

#[test]
fn string_without_prefix_is_treated_as_raw_secret() {
    // resembling a URI is no reason for rejection beyond base32 itself
    assert_eq!(parse("xyz://totp?secret=JBSWY3DP").unwrap_err(), OtpError::InvalidEncoding);
    assert_eq!(parse("otpauth://hotp/x?secret=JBSWY3DP").unwrap_err(), OtpError::InvalidEncoding);
    // a prefix that merely starts alike goes the raw path too
    assert_eq!(parse("otpauth://totpx?secret=JBSWY3DP").unwrap_err(), OtpError::InvalidEncoding);
    // and a plain secret still decodes
    assert!(parse("JBSWY3DP").is_ok());
}

#[test]
fn raw_secret_that_is_not_base32_is_an_encoding_error() {
    assert_eq!(parse("not base32!").unwrap_err(), OtpError::InvalidEncoding);
}

#[test]
fn raw_empty_secret_is_an_encoding_error() {
    assert_eq!(parse("").unwrap_err(), OtpError::InvalidEncoding);
    assert_eq!(parse("====").unwrap_err(), OtpError::InvalidEncoding);
}

#[test]
fn uri_without_query_is_malformed() {
    assert_eq!(parse("otpauth://totp").unwrap_err(), OtpError::MalformedUri);
    assert_eq!(parse("otpauth://totp/label").unwrap_err(), OtpError::MalformedUri);
}
