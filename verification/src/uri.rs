//! The `otpauth://totp` provisioning URI.
//!
//! A stored secret is either such a URI or a bare base32 string. The
//! recognizer looks for the `otpauth://totp` prefix; everything else
//! degrades to the raw-secret path, so a user may paste either form.
//! From a recognized URI the parser reads the `secret`, `digits`,
//! `period` and `algorithm` query parameters, with the RFC defaults for
//! the absent ones, and rejects explicitly present but invalid values.

use vstd::prelude::*;
use vstd::string::StringSliceAdditionalSpecFns;
use vstd::string::StrSliceExecFns;

use crate::base32::{b32_decode_spec, decode_bytes};
use crate::hotp::HashAlgorithm;
use crate::otp::{valid_model, OtpParameters, ParamsModel};
use crate::OtpError;

verus! {

/// The fourteen bytes of `otpauth://totp`.
pub open spec fn otpauth_totp_prefix() -> Seq<u8> {
    seq![
        ('o' as u8),
        ('t' as u8),
        ('p' as u8),
        ('a' as u8),
        ('u' as u8),
        ('t' as u8),
        ('h' as u8),
        (':' as u8),
        ('/' as u8),
        ('/' as u8),
        ('t' as u8),
        ('o' as u8),
        ('t' as u8),
        ('p' as u8),
    ]
}

/// Whether the input is an `otpauth://totp` URI: the prefix, followed
/// by nothing at all, a path, or directly the query.
pub open spec fn is_totp_uri(s: Seq<u8>) -> bool {
    s.len() >= 14 && s.subrange(0, 14) == otpauth_totp_prefix() && (s.len() == 14 || s[14] == (
    '/' as u8) || s[14] == ('?' as u8))
}

/// The first position at or after `from` holding `b`, or the length.
pub open spec fn find_from(s: Seq<u8>, from: int, b: u8) -> int
    decreases s.len() - from,
{
    if from < 0 || from >= s.len() {
        s.len() as int
    } else if s[from] == b {
        from
    } else {
        find_from(s, from + 1, b)
    }
}

/// Where the query segment that starts at `pos` ends: at the next `&`,
/// or at the end of the query.
pub open spec fn seg_end(s: Seq<u8>, pos: int) -> int {
    let f = find_from(s, pos, ('&' as u8));
    if f < pos {
        pos
    } else if f > s.len() {
        s.len() as int
    } else {
        f
    }
}

/// The value of the first `key=value` pair of the query whose key is
/// `key`, scanning `&`-separated segments from `pos`; a segment without
/// `=` is a key with the empty value.
pub open spec fn lookup_from(q: Seq<u8>, pos: int, key: Seq<u8>) -> Option<Seq<u8>>
    decreases q.len() - pos,
{
    if pos < 0 || pos > q.len() {
        None
    } else {
        let stop = seg_end(q, pos);
        let eq = find_from(q, pos, ('=' as u8));
        let k = if eq < stop {
            q.subrange(pos, eq)
        } else {
            q.subrange(pos, stop)
        };
        let v = if eq < stop {
            q.subrange(eq + 1, stop)
        } else {
            Seq::<u8>::empty()
        };
        if k == key {
            Some(v)
        } else if stop >= q.len() {
            None
        } else {
            lookup_from(q, stop + 1, key)
        }
    }
}

/// The value of the first pair of the query with this key.
pub open spec fn lookup_spec(q: Seq<u8>, key: Seq<u8>) -> Option<Seq<u8>> {
    lookup_from(q, 0, key)
}

/// The bytes of `secret`.
pub open spec fn secret_key() -> Seq<u8> {
    seq![('s' as u8), ('e' as u8), ('c' as u8), ('r' as u8), ('e' as u8), ('t' as u8)]
}

/// The bytes of `digits`.
pub open spec fn digits_key() -> Seq<u8> {
    seq![('d' as u8), ('i' as u8), ('g' as u8), ('i' as u8), ('t' as u8), ('s' as u8)]
}

/// The bytes of `period`.
pub open spec fn period_key() -> Seq<u8> {
    seq![('p' as u8), ('e' as u8), ('r' as u8), ('i' as u8), ('o' as u8), ('d' as u8)]
}

/// The bytes of `algorithm`.
pub open spec fn algorithm_key() -> Seq<u8> {
    seq![
        ('a' as u8),
        ('l' as u8),
        ('g' as u8),
        ('o' as u8),
        ('r' as u8),
        ('i' as u8),
        ('t' as u8),
        ('h' as u8),
        ('m' as u8),
    ]
}

/// The bytes of `sha1`.
pub open spec fn sha1_token() -> Seq<u8> {
    seq![('s' as u8), ('h' as u8), ('a' as u8), ('1' as u8)]
}

/// The bytes of `sha256`.
pub open spec fn sha256_token() -> Seq<u8> {
    seq![('s' as u8), ('h' as u8), ('a' as u8), ('2' as u8), ('5' as u8), ('6' as u8)]
}

/// The bytes of `sha512`.
pub open spec fn sha512_token() -> Seq<u8> {
    seq![('s' as u8), ('h' as u8), ('a' as u8), ('5' as u8), ('1' as u8), ('2' as u8)]
}

/// The hash function an `algorithm` value names; the three lower-case
/// tokens exactly, anything else is unsupported.
pub open spec fn algorithm_of(v: Seq<u8>) -> Option<HashAlgorithm> {
    if v == sha1_token() {
        Some(HashAlgorithm::Sha1)
    } else if v == sha256_token() {
        Some(HashAlgorithm::Sha256)
    } else if v == sha512_token() {
        Some(HashAlgorithm::Sha512)
    } else {
        None
    }
}

/// The number an all-decimal-digits string denotes.
pub open spec fn dec_val(s: Seq<u8>) -> nat
    decreases s.len(),
{
    if s.len() == 0 {
        0
    } else {
        dec_val(s.drop_last()) * 10 + ((s.last() - 0x30) as nat)
    }
}

/// Every byte is a decimal digit.
pub open spec fn all_digits(s: Seq<u8>) -> bool {
    forall|i: int| 0 <= i < s.len() ==> 0x30 <= #[trigger] s[i] <= 0x39
}

/// What parsing an unsigned integer yields: the denoted number, if the
/// string is non-empty, all digits, and the number fits in 32 bits.
pub open spec fn parse_u32_spec(s: Seq<u8>) -> Option<u32> {
    if s.len() > 0 && all_digits(s) && dec_val(s) <= 0xffff_ffff {
        Some(dec_val(s) as u32)
    } else {
        None
    }
}

/// The digit count of a query: 6 when absent, else its parsed value.
pub open spec fn digits_of(q: Seq<u8>) -> Option<u32> {
    match lookup_spec(q, digits_key()) {
        None => Some(6u32),
        Some(d) => parse_u32_spec(d),
    }
}

/// The period of a query: 30 when absent, else its parsed value.
pub open spec fn period_of(q: Seq<u8>) -> Option<u32> {
    match lookup_spec(q, period_key()) {
        None => Some(30u32),
        Some(p) => parse_u32_spec(p),
    }
}

/// The hash function of a query: SHA-1 when absent, else its token.
pub open spec fn algorithm_param_of(q: Seq<u8>) -> Option<HashAlgorithm> {
    match lookup_spec(q, algorithm_key()) {
        None => Some(HashAlgorithm::Sha1),
        Some(a) => algorithm_of(a),
    }
}

/// What parsing the query of a recognized URI yields. The checks run
/// in a fixed order: a missing secret is a malformed URI; a secret
/// that is not base32, or decodes to nothing, is an encoding error; an
/// unparsable `digits` or `period` is a malformed URI; an unknown
/// `algorithm` token is unsupported; and a digit count or period out
/// of range is an invalid parameter.
pub open spec fn parse_query_spec(q: Seq<u8>) -> Result<ParamsModel, OtpError> {
    match lookup_spec(q, secret_key()) {
        None => Err(OtpError::MalformedUri),
        Some(sec) => match b32_decode_spec(sec) {
            None => Err(OtpError::InvalidEncoding),
            Some(bytes) => {
                if bytes.len() == 0 {
                    Err(OtpError::InvalidEncoding)
                } else {
                    match digits_of(q) {
                        None => Err(OtpError::MalformedUri),
                        Some(digits) => match period_of(q) {
                            None => Err(OtpError::MalformedUri),
                            Some(period) => match algorithm_param_of(q) {
                                None => Err(OtpError::UnsupportedAlgorithm),
                                Some(algorithm) => {
                                    if digits < 1 || digits > 10 {
                                        Err(OtpError::InvalidParameter)
                                    } else if period < 1 {
                                        Err(OtpError::InvalidParameter)
                                    } else {
                                        Ok(
                                            ParamsModel {
                                                secret: bytes,
                                                digits,
                                                period,
                                                algorithm,
                                            },
                                        )
                                    }
                                },
                            },
                        },
                    }
                }
            },
        },
    }
}

/// What parsing a recognized URI yields: its query begins after the
/// first `?`; without one there are no parameters and no secret.
pub open spec fn parse_uri_spec(s: Seq<u8>) -> Result<ParamsModel, OtpError> {
    let qf = find_from(s, 0, ('?' as u8));
    if qf >= s.len() {
        Err(OtpError::MalformedUri)
    } else {
        parse_query_spec(s.subrange(qf + 1, s.len() as int))
    }
}

/// What treating the whole input as a bare base32 secret yields: the
/// decoded bytes with the default parameters, or an encoding error.
pub open spec fn parse_raw_spec(s: Seq<u8>) -> Result<ParamsModel, OtpError> {
    match b32_decode_spec(s) {
        None => Err(OtpError::InvalidEncoding),
        Some(bytes) => {
            if bytes.len() == 0 {
                Err(OtpError::InvalidEncoding)
            } else {
                Ok(
                    ParamsModel {
                        secret: bytes,
                        digits: 6u32,
                        period: 30u32,
                        algorithm: HashAlgorithm::Sha1,
                    },
                )
            }
        },
    }
}

/// What reading a stored secret yields: URI parsing behind the
/// `otpauth://totp` prefix, the raw-secret path everywhere else.
pub open spec fn parse_secret_spec(s: Seq<u8>) -> Result<ParamsModel, OtpError> {
    if is_totp_uri(s) {
        parse_uri_spec(s)
    } else {
        parse_raw_spec(s)
    }
}

/// A string without the `otpauth://totp` prefix is always handled as a
/// raw base32 secret — never rejected for merely resembling a URI.
pub proof fn lemma_raw_dispatch(s: Seq<u8>)
    requires
        !is_totp_uri(s),
    ensures
        parse_secret_spec(s) == parse_raw_spec(s),
{
}

/// Whatever parsing returns in success lies in the legal ranges.
pub proof fn lemma_parse_gives_valid(s: Seq<u8>)
    ensures
        match parse_secret_spec(s) {
            Ok(m) => valid_model(m),
            Err(_) => true,
        },
{
}

/// The first position at or after `from` holding `b`, or the length.
#[verifier::loop_isolation(false)]
fn find_byte(v: &Vec<u8>, from: usize, b: u8) -> (r: usize)
    requires
        from <= v@.len(),
    ensures
        r == find_from(v@, from as int, b),
        from <= r <= v@.len(),
        r < v@.len() ==> v@[r as int] == b,
{
    let mut i = from;
    while i < v.len()
        invariant
            from <= i <= v@.len(),
            find_from(v@, from as int, b) == find_from(v@, i as int, b),
        decreases v@.len() - i,
    {
        if v[i] == b {
            return i;
        }
        i += 1;
    }
    i
}

/// The bytes from `a` up to `b`.
#[verifier::loop_isolation(false)]
fn subvec(v: &Vec<u8>, a: usize, b: usize) -> (r: Vec<u8>)
    requires
        a <= b <= v@.len(),
    ensures
        r@ == v@.subrange(a as int, b as int),
{
    let mut out: Vec<u8> = Vec::new();
    let mut i = a;
    while i < b
        invariant
            a <= i <= b,
            out@ =~= v@.subrange(a as int, i as int),
        decreases b - i,
    {
        out.push(v[i]);
        assert(out@ =~= v@.subrange(a as int, i as int + 1));
        i += 1;
    }
    out
}

/// Whether two byte strings hold the same bytes.
#[verifier::loop_isolation(false)]
fn bytes_eq(a: &Vec<u8>, b: &Vec<u8>) -> (r: bool)
    ensures
        r == (a@ == b@),
{
    if a.len() != b.len() {
        return false;
    }
    let mut i: usize = 0;
    while i < a.len()
        invariant
            i <= a@.len(),
            a@.len() == b@.len(),
            forall|j: int| 0 <= j < i ==> a@[j] == #[trigger] b@[j],
        decreases a@.len() - i,
    {
        if a[i] != b[i] {
            return false;
        }
        i += 1;
    }
    proof {
        assert(a@ =~= b@);
    }
    true
}

/// The value of the first pair of the query with this key.
#[verifier::loop_isolation(false)]
fn lookup(q: &Vec<u8>, key: &Vec<u8>) -> (r: Option<Vec<u8>>)
    ensures
        match r {
            Some(v) => lookup_spec(q@, key@) == Some(v@),
            None => lookup_spec(q@, key@) is None,
        },
{
    let mut pos: usize = 0;
    loop
        invariant
            pos <= q@.len(),
            lookup_spec(q@, key@) == lookup_from(q@, pos as int, key@),
        decreases q@.len() - pos,
    {
        let stop = find_byte(q, pos, ('&' as u8));
        let eq = find_byte(q, pos, ('=' as u8));
        assert(stop == seg_end(q@, pos as int));
        let kend = if eq < stop {
            eq
        } else {
            stop
        };
        let k = subvec(q, pos, kend);
        if bytes_eq(&k, key) {
            let v = if eq < stop {
                subvec(q, eq + 1, stop)
            } else {
                Vec::new()
            };
            assert(v@ =~= (if eq < stop {
                q@.subrange(eq as int + 1, stop as int)
            } else {
                Seq::<u8>::empty()
            }));
            return Some(v);
        }
        if stop >= q.len() {
            return None;
        }
        pos = stop + 1;
    }
}

/// Parse an unsigned 32-bit integer: all decimal digits, in range.
#[verifier::loop_isolation(false)]
fn parse_u32(v: &Vec<u8>) -> (r: Option<u32>)
    ensures
        r == parse_u32_spec(v@),
{
    if v.len() == 0 {
        return None;
    }
    let mut acc: u64 = 0;
    let mut over: bool = false;
    let mut i: usize = 0;
    while i < v.len()
        invariant
            i <= v@.len(),
            all_digits(v@.take(i as int)),
            !over ==> acc == dec_val(v@.take(i as int)) && acc <= 0xffff_ffff,
            over ==> dec_val(v@.take(i as int)) > 0xffff_ffff,
        decreases v@.len() - i,
    {
        let c = v[i];
        if c < 0x30 || c > 0x39 {
            assert(!all_digits(v@));
            return None;
        }
        let d = c - 0x30;
        proof {
            assert(v@.take(i as int + 1).drop_last() =~= v@.take(i as int));
            assert(v@.take(i as int + 1).last() == v@[i as int]);
        }
        if over {
            assert(dec_val(v@.take(i as int + 1)) > 0xffff_ffff);
        } else {
            let nacc = acc * 10 + (d as u64);
            if nacc > 0xffff_ffff {
                over = true;
                assert(dec_val(v@.take(i as int + 1)) > 0xffff_ffff);
            } else {
                acc = nacc;
            }
        }
        i += 1;
    }
    assert(v@.take(i as int) =~= v@);
    if over {
        None
    } else {
        Some(acc as u32)
    }
}

/// Whether the input carries the `otpauth://totp` prefix.
fn has_totp_prefix(v: &Vec<u8>) -> (r: bool)
    ensures
        r == is_totp_uri(v@),
{
    if v.len() < 14 {
        return false;
    }
    let head = v[0] == ('o' as u8) && v[1] == ('t' as u8) && v[2] == ('p' as u8) && v[3] == (
    'a' as u8) && v[4] == ('u' as u8) && v[5] == ('t' as u8) && v[6] == ('h' as u8) && v[7] == (
    ':' as u8) && v[8] == ('/' as u8) && v[9] == ('/' as u8) && v[10] == ('t' as u8) && v[11] == (
    'o' as u8) && v[12] == ('t' as u8) && v[13] == ('p' as u8);
    if !head {
        proof {
            if v@.subrange(0, 14) == otpauth_totp_prefix() {
                assert(forall|j: int| 0 <= j < 14 ==> v@[j] == otpauth_totp_prefix()[j]) by {
                    assert(forall|j: int|
                        0 <= j < 14 ==> v@.subrange(0, 14)[j] == #[trigger] v@[j]);
                }
            }
        }
        return false;
    }
    proof {
        assert(v@.subrange(0, 14) =~= otpauth_totp_prefix());
    }
    v.len() == 14 || v[14] == ('/' as u8) || v[14] == ('?' as u8)
}

/// The `secret` key as bytes.
fn secret_key_vec() -> (r: Vec<u8>)
    ensures
        r@ == secret_key(),
{
    let mut v: Vec<u8> = Vec::new();
    v.push('s' as u8);
    v.push('e' as u8);
    v.push('c' as u8);
    v.push('r' as u8);
    v.push('e' as u8);
    v.push('t' as u8);
    assert(v@ =~= secret_key());
    v
}

/// The `digits` key as bytes.
fn digits_key_vec() -> (r: Vec<u8>)
    ensures
        r@ == digits_key(),
{
    let mut v: Vec<u8> = Vec::new();
    v.push('d' as u8);
    v.push('i' as u8);
    v.push('g' as u8);
    v.push('i' as u8);
    v.push('t' as u8);
    v.push('s' as u8);
    assert(v@ =~= digits_key());
    v
}

/// The `period` key as bytes.
fn period_key_vec() -> (r: Vec<u8>)
    ensures
        r@ == period_key(),
{
    let mut v: Vec<u8> = Vec::new();
    v.push('p' as u8);
    v.push('e' as u8);
    v.push('r' as u8);
    v.push('i' as u8);
    v.push('o' as u8);
    v.push('d' as u8);
    assert(v@ =~= period_key());
    v
}

/// The `algorithm` key as bytes.
fn algorithm_key_vec() -> (r: Vec<u8>)
    ensures
        r@ == algorithm_key(),
{
    let mut v: Vec<u8> = Vec::new();
    v.push('a' as u8);
    v.push('l' as u8);
    v.push('g' as u8);
    v.push('o' as u8);
    v.push('r' as u8);
    v.push('i' as u8);
    v.push('t' as u8);
    v.push('h' as u8);
    v.push('m' as u8);
    assert(v@ =~= algorithm_key());
    v
}

/// The `sha1` token as bytes.
fn sha1_token_vec() -> (r: Vec<u8>)
    ensures
        r@ == sha1_token(),
{
    let mut v: Vec<u8> = Vec::new();
    v.push('s' as u8);
    v.push('h' as u8);
    v.push('a' as u8);
    v.push('1' as u8);
    assert(v@ =~= sha1_token());
    v
}

/// The `sha256` token as bytes.
fn sha256_token_vec() -> (r: Vec<u8>)
    ensures
        r@ == sha256_token(),
{
    let mut v: Vec<u8> = Vec::new();
    v.push('s' as u8);
    v.push('h' as u8);
    v.push('a' as u8);
    v.push('2' as u8);
    v.push('5' as u8);
    v.push('6' as u8);
    assert(v@ =~= sha256_token());
    v
}

/// The `sha512` token as bytes.
fn sha512_token_vec() -> (r: Vec<u8>)
    ensures
        r@ == sha512_token(),
{
    let mut v: Vec<u8> = Vec::new();
    v.push('s' as u8);
    v.push('h' as u8);
    v.push('a' as u8);
    v.push('5' as u8);
    v.push('1' as u8);
    v.push('2' as u8);
    assert(v@ =~= sha512_token());
    v
}

/// Parse the query of a recognized URI into a parameter set.
fn parse_query(q: &Vec<u8>) -> (r: Result<OtpParameters, OtpError>)
    ensures
        match r {
            Ok(p) => parse_query_spec(q@) == Ok::<ParamsModel, OtpError>(p.model()),
            Err(e) => parse_query_spec(q@) == Err::<ParamsModel, OtpError>(e),
        },
{
    let sec = match lookup(q, &secret_key_vec()) {
        None => {
            return Err(OtpError::MalformedUri);
        },
        Some(sv) => sv,
    };
    let bytes = match decode_bytes(sec.as_slice()) {
        None => {
            return Err(OtpError::InvalidEncoding);
        },
        Some(b) => b,
    };
    if bytes.len() == 0 {
        return Err(OtpError::InvalidEncoding);
    }
    let digits: u32 = match lookup(q, &digits_key_vec()) {
        None => 6,
        Some(dv) => match parse_u32(&dv) {
            None => {
                return Err(OtpError::MalformedUri);
            },
            Some(d) => d,
        },
    };
    assert(digits_of(q@) == Some(digits));
    let period: u32 = match lookup(q, &period_key_vec()) {
        None => 30,
        Some(pv) => match parse_u32(&pv) {
            None => {
                return Err(OtpError::MalformedUri);
            },
            Some(p) => p,
        },
    };
    assert(period_of(q@) == Some(period));
    let algorithm: HashAlgorithm = match lookup(q, &algorithm_key_vec()) {
        None => HashAlgorithm::Sha1,
        Some(av) => {
            if bytes_eq(&av, &sha1_token_vec()) {
                HashAlgorithm::Sha1
            } else if bytes_eq(&av, &sha256_token_vec()) {
                HashAlgorithm::Sha256
            } else if bytes_eq(&av, &sha512_token_vec()) {
                HashAlgorithm::Sha512
            } else {
                return Err(OtpError::UnsupportedAlgorithm);
            }
        },
    };
    assert(algorithm_param_of(q@) == Some(algorithm));
    if digits < 1 || digits > 10 {
        return Err(OtpError::InvalidParameter);
    }
    if period < 1 {
        return Err(OtpError::InvalidParameter);
    }
    Ok(OtpParameters { secret: bytes, digits, period, algorithm })
}

/// Read a stored secret string into a parameter set: URI parsing
/// behind the `otpauth://totp` prefix, the raw-secret path with the
/// default parameters everywhere else.
pub fn parse_secret(key: &str) -> (r: Result<OtpParameters, OtpError>)
    ensures
        match r {
            Ok(p) => parse_secret_spec(key.spec_bytes()) == Ok::<ParamsModel, OtpError>(p.model()),
            Err(e) => parse_secret_spec(key.spec_bytes()) == Err::<ParamsModel, OtpError>(e),
        },
{
    let v = key.as_bytes_vec();
    if has_totp_prefix(&v) {
        let qf = find_byte(&v, 0, ('?' as u8));
        if qf >= v.len() {
            return Err(OtpError::MalformedUri);
        }
        let q = subvec(&v, qf + 1, v.len());
        parse_query(&q)
    } else {
        match decode_bytes(v.as_slice()) {
            None => Err(OtpError::InvalidEncoding),
            Some(bytes) => {
                if bytes.len() == 0 {
                    Err(OtpError::InvalidEncoding)
                } else {
                    Ok(
                        OtpParameters {
                            secret: bytes,
                            digits: 6,
                            period: 30,
                            algorithm: HashAlgorithm::Sha1,
                        },
                    )
                }
            },
        }
    }
}

} // verus!
