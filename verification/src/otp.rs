//! One-time-password generation from a stored secret.
//!
//! `OtpParameters` carries the decoded secret with its generation
//! parameters; `TwoFactorAuth` builds such a value out of a caller's
//! secret string — a provisioning URI or bare base32 — and produces
//! time-based codes per RFC 6238.

use vstd::prelude::*;
use vstd::string::StringSliceAdditionalSpecFns;

use crate::hotp::{hotp, hotp_code, HashAlgorithm};
use crate::uri::{parse_secret, parse_secret_spec};
use crate::OtpError;

verus! {

/// Everything one TOTP generation needs: the decoded secret bytes, the
/// number of code digits, the period in seconds, and the hash function.
#[derive(Clone, Debug)]
pub struct OtpParameters {
    pub secret: Vec<u8>,
    pub digits: u32,
    pub period: u32,
    pub algorithm: HashAlgorithm,
}

/// The mathematical content of a parameter set.
pub struct ParamsModel {
    pub secret: Seq<u8>,
    pub digits: u32,
    pub period: u32,
    pub algorithm: HashAlgorithm,
}

/// The legal ranges: a secret that holds at least one byte, one to ten
/// code digits, and a period of at least one second.
pub open spec fn valid_model(m: ParamsModel) -> bool {
    m.secret.len() > 0 && 1 <= m.digits <= 10 && m.period >= 1
}

/// What checking a parameter set yields, each failure with its error.
pub open spec fn validate_spec(m: ParamsModel) -> Result<(), OtpError> {
    if m.secret.len() == 0 {
        Err(OtpError::InvalidEncoding)
    } else if m.digits < 1 || m.digits > 10 {
        Err(OtpError::InvalidParameter)
    } else if m.period < 1 {
        Err(OtpError::InvalidParameter)
    } else {
        Ok(())
    }
}

/// The TOTP code a parameter set assigns to a moment `now`, in seconds
/// since the Unix epoch: the HOTP code at counter `now / period`.
pub open spec fn totp_code_spec(m: ParamsModel, now: u64) -> Seq<char> {
    hotp_code(m.algorithm, m.secret, now / (m.period as u64), m.digits as nat)
}

/// Two moments that fall in the same period yield the same code: a
/// code stays valid until its period rolls over.
pub proof fn lemma_same_period_same_code(m: ParamsModel, now1: u64, now2: u64)
    requires
        m.period >= 1,
        now1 / (m.period as u64) == now2 / (m.period as u64),
    ensures
        totp_code_spec(m, now1) == totp_code_spec(m, now2),
{
}

impl OtpParameters {
    /// The parameter set as a mathematical value.
    pub open spec fn model(&self) -> ParamsModel {
        ParamsModel {
            secret: self.secret@,
            digits: self.digits,
            period: self.period,
            algorithm: self.algorithm,
        }
    }

    /// The parameter set lies in the legal ranges.
    pub open spec fn valid(&self) -> bool {
        valid_model(self.model())
    }

    /// Check every parameter before generation; nothing is generated
    /// from a set that fails here.
    pub fn validate(&self) -> (r: Result<(), OtpError>)
        ensures
            r == validate_spec(self.model()),
            r is Ok <==> self.valid(),
    {
        if self.secret.len() == 0 {
            Err(OtpError::InvalidEncoding)
        } else if self.digits < 1 || self.digits > 10 {
            Err(OtpError::InvalidParameter)
        } else if self.period < 1 {
            Err(OtpError::InvalidParameter)
        } else {
            Ok(())
        }
    }

    /// The TOTP code for the moment `now`, in seconds since the Unix
    /// epoch: the counter is the number of whole periods elapsed.
    pub fn totp_at(&self, now: u64) -> (r: String)
        requires
            self.valid(),
        ensures
            r@ == totp_code_spec(self.model(), now),
            r@.len() == self.digits,
    {
        let counter = now / (self.period as u64);
        hotp(self.secret.as_slice(), counter, self.digits, self.algorithm)
    }
}

/// A ready-to-use code generator built from a stored secret.
#[derive(Clone, Debug)]
pub enum TwoFactorAuth {
    Totp(OtpParameters),
}

/// A generated one-time code.
#[derive(Clone, Debug)]
pub struct TwoFactorAuthResponse {
    pub value: String,
}

/// Relies on `std::time::SystemTime::now`: the seconds of the system
/// clock since the Unix epoch, or zero should the clock read earlier
/// than that. Nothing can be promised about the clock's value.
#[verifier::external_body]
fn unix_time_seconds() -> u64 {
    match std::time::SystemTime::now().duration_since(std::time::UNIX_EPOCH) {
        Ok(d) => d.as_secs(),
        Err(_) => 0,
    }
}

impl TwoFactorAuth {
    /// The held parameter set lies in the legal ranges.
    pub open spec fn valid(&self) -> bool {
        match self {
            TwoFactorAuth::Totp(p) => p.valid(),
        }
    }

    /// Read a stored secret. An `otpauth://totp` URI is parsed for its
    /// parameters; any other string is taken as a bare base32 secret
    /// with the default parameters (six digits, thirty seconds, SHA-1).
    pub fn try_from(key: &str) -> (r: Result<TwoFactorAuth, OtpError>)
        ensures
            ({
                let m = parse_secret_spec(key.spec_bytes());
                match r {
                    Ok(TwoFactorAuth::Totp(p)) => m == Ok::<ParamsModel, OtpError>(p.model())
                        && p.valid(),
                    Err(e) => m == Err::<ParamsModel, OtpError>(e),
                }
            }),
    {
        match parse_secret(key) {
            Ok(p) => Ok(TwoFactorAuth::Totp(p)),
            Err(e) => Err(e),
        }
    }

    /// The code for the moment `now`, in seconds since the Unix epoch.
    pub fn generate_at(&self, now: u64) -> (r: TwoFactorAuthResponse)
        requires
            self.valid(),
        ensures
            match self {
                TwoFactorAuth::Totp(p) => r.value@ == totp_code_spec(p.model(), now)
                    && r.value@.len() == p.digits,
            },
    {
        match self {
            TwoFactorAuth::Totp(p) => TwoFactorAuthResponse { value: p.totp_at(now) },
        }
    }

    /// The code for the present moment, read from the system clock.
    /// Whatever the clock returned, the result is the code for some
    /// moment, of the configured length.
    pub fn generate(&self) -> (r: TwoFactorAuthResponse)
        requires
            self.valid(),
        ensures
            match self {
                TwoFactorAuth::Totp(p) => (exists|now: u64|
                    r.value@ == totp_code_spec(p.model(), now)) && r.value@.len() == p.digits,
            },
    {
        let now = unix_time_seconds();
        self.generate_at(now)
    }
}

} // verus!
