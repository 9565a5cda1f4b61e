//! One-time-password generation for a password-manager front end.
//!
//! The library turns a stored secret — either a bare RFC 4648 base32 string
//! or an `otpauth://totp` provisioning URI — into a time-based numeric code
//! per RFC 4226 (HOTP) and RFC 6238 (TOTP). The base32 decoder, the URI
//! parser, the dynamic truncation and the digit rendering are implemented
//! and verified here; only the HMAC digests themselves are taken from
//! outside crates through trusted wrappers.

use vstd::prelude::*;

pub mod base32;
pub mod hotp;
pub mod model;
pub mod otp;
pub mod uri;

verus! {

/// Why a secret string could not be turned into a one-time password.
#[derive(Clone, Copy, Debug, PartialEq, Eq, Structural)]
pub enum OtpError {
    /// The secret is not valid base32, or decodes to no bytes at all.
    InvalidEncoding,
    /// An `otpauth://totp` URI is missing its secret, or a numeric
    /// field of it does not parse as an unsigned integer.
    MalformedUri,
    /// The algorithm token of a URI names no supported hash function.
    UnsupportedAlgorithm,
    /// The digit count or the period lies outside the accepted range.
    InvalidParameter,
}

/// Relies on `String::from_utf8`: bytes below 128 are always valid
/// UTF-8 and decode to the chars with the same code points, one char
/// per byte, so the conversion cannot fail here.
#[verifier::external_body]
pub(crate) fn ascii_string(v: Vec<u8>) -> (r: String)
    requires
        forall|i: int| 0 <= i < v@.len() ==> v@[i] < 128,
    ensures
        r@ == v@.map_values(|b: u8| b as char),
{
    String::from_utf8(v).unwrap()
}

} // verus!
