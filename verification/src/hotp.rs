//! RFC 4226 HOTP code generation.
//!
//! The HMAC digest itself comes from the `hmac` crate instantiated with
//! the `sha1` and `sha2` hash implementations — the same primitives the
//! usual OTP crates build on. Everything around the digest — the
//! big-endian counter encoding, dynamic truncation, modulo reduction and
//! zero-padded decimal rendering — is implemented and verified here.

use vstd::prelude::*;
use vstd::arithmetic::div_mod::lemma_div_multiples_vanish;

use crate::ascii_string;

verus! {

/// The hash function an HMAC one-time password is built on.
#[derive(Clone, Copy, Debug, PartialEq, Eq, Structural)]
pub enum HashAlgorithm {
    Sha1,
    Sha256,
    Sha512,
}

/// What HMAC-SHA-1 computes from a key and a message.
pub uninterp spec fn hmac_sha1_of(key: Seq<u8>, msg: Seq<u8>) -> Seq<u8>;

/// What HMAC-SHA-256 computes from a key and a message.
pub uninterp spec fn hmac_sha256_of(key: Seq<u8>, msg: Seq<u8>) -> Seq<u8>;

/// What HMAC-SHA-512 computes from a key and a message.
pub uninterp spec fn hmac_sha512_of(key: Seq<u8>, msg: Seq<u8>) -> Seq<u8>;

/// The digest of the selected hash function.
pub open spec fn hmac_of(algorithm: HashAlgorithm, key: Seq<u8>, msg: Seq<u8>) -> Seq<u8> {
    match algorithm {
        HashAlgorithm::Sha1 => hmac_sha1_of(key, msg),
        HashAlgorithm::Sha256 => hmac_sha256_of(key, msg),
        HashAlgorithm::Sha512 => hmac_sha512_of(key, msg),
    }
}

/// How many bytes the selected digest has.
pub open spec fn digest_len(algorithm: HashAlgorithm) -> nat {
    match algorithm {
        HashAlgorithm::Sha1 => 20,
        HashAlgorithm::Sha256 => 32,
        HashAlgorithm::Sha512 => 64,
    }
}

/// Relies on `hmac::Hmac<sha1::Sha1>`: the MAC is a function of key and
/// message alone, its output is one SHA-1 block of 20 bytes, and any
/// key length is accepted (`new_from_slice` never fails for HMAC).
#[verifier::external_body]
fn hmac_sha1(key: &[u8], msg: &[u8]) -> (r: Vec<u8>)
    ensures
        r@ == hmac_sha1_of(key@, msg@),
        r@.len() == 20,
{
    let mut mac = <hmac::Hmac<sha1::Sha1> as hmac::KeyInit>::new_from_slice(key).unwrap();
    hmac::Mac::update(&mut mac, msg);
    hmac::Mac::finalize(mac).into_bytes().as_slice().to_vec()
}

/// Relies on `hmac::Hmac<sha2::Sha256>`: as above, with a 32-byte digest.
#[verifier::external_body]
fn hmac_sha256(key: &[u8], msg: &[u8]) -> (r: Vec<u8>)
    ensures
        r@ == hmac_sha256_of(key@, msg@),
        r@.len() == 32,
{
    let mut mac = <hmac::Hmac<sha2::Sha256> as hmac::KeyInit>::new_from_slice(key).unwrap();
    hmac::Mac::update(&mut mac, msg);
    hmac::Mac::finalize(mac).into_bytes().as_slice().to_vec()
}

/// Relies on `hmac::Hmac<sha2::Sha512>`: as above, with a 64-byte digest.
#[verifier::external_body]
fn hmac_sha512(key: &[u8], msg: &[u8]) -> (r: Vec<u8>)
    ensures
        r@ == hmac_sha512_of(key@, msg@),
        r@.len() == 64,
{
    let mut mac = <hmac::Hmac<sha2::Sha512> as hmac::KeyInit>::new_from_slice(key).unwrap();
    hmac::Mac::update(&mut mac, msg);
    hmac::Mac::finalize(mac).into_bytes().as_slice().to_vec()
}

/// The digest of the selected hash function over key and message.
fn hmac(algorithm: HashAlgorithm, key: &[u8], msg: &[u8]) -> (r: Vec<u8>)
    ensures
        r@ == hmac_of(algorithm, key@, msg@),
        r@.len() == digest_len(algorithm),
{
    match algorithm {
        HashAlgorithm::Sha1 => hmac_sha1(key, msg),
        HashAlgorithm::Sha256 => hmac_sha256(key, msg),
        HashAlgorithm::Sha512 => hmac_sha512(key, msg),
    }
}

/// 10 to the `n`.
pub open spec fn pow10(n: nat) -> nat
    decreases n,
{
    if n == 0 {
        1
    } else {
        10 * pow10((n - 1) as nat)
    }
}

/// 10 to the `d` as a machine integer; every power up to 10^10 fits.
fn pow10_u64(d: u32) -> (r: u64)
    requires
        d <= 10,
    ensures
        r == pow10(d as nat),
        r >= 1,
{
    proof {
        reveal_with_fuel(pow10, 11);
    }
    if d == 0 {
        1
    } else if d == 1 {
        10
    } else if d == 2 {
        100
    } else if d == 3 {
        1_000
    } else if d == 4 {
        10_000
    } else if d == 5 {
        100_000
    } else if d == 6 {
        1_000_000
    } else if d == 7 {
        10_000_000
    } else if d == 8 {
        100_000_000
    } else if d == 9 {
        1_000_000_000
    } else {
        10_000_000_000
    }
}

/// The eight big-endian bytes of the counter, the HMAC message.
pub open spec fn counter_bytes_spec(c: u64) -> Seq<u8> {
    seq![
        ((c >> 56) & 0xff) as u8,
        ((c >> 48) & 0xff) as u8,
        ((c >> 40) & 0xff) as u8,
        ((c >> 32) & 0xff) as u8,
        ((c >> 24) & 0xff) as u8,
        ((c >> 16) & 0xff) as u8,
        ((c >> 8) & 0xff) as u8,
        (c & 0xff) as u8,
    ]
}

/// The counter encoded big-endian in eight bytes.
fn counter_bytes(c: u64) -> (r: Vec<u8>)
    ensures
        r@ == counter_bytes_spec(c),
{
    let mut out: Vec<u8> = Vec::new();
    out.push(((c >> 56) & 0xff) as u8);
    out.push(((c >> 48) & 0xff) as u8);
    out.push(((c >> 40) & 0xff) as u8);
    out.push(((c >> 32) & 0xff) as u8);
    out.push(((c >> 24) & 0xff) as u8);
    out.push(((c >> 16) & 0xff) as u8);
    out.push(((c >> 8) & 0xff) as u8);
    out.push((c & 0xff) as u8);
    assert(out@ =~= counter_bytes_spec(c));
    out
}

/// Dynamic truncation: the digest's last four bits pick an offset, and
/// the 31 bits starting there (sign bit masked off) form the value.
pub open spec fn truncated(d: Seq<u8>) -> nat {
    let off = (d.last() & 0x0f) as int;
    ((d[off] & 0x7f) as nat) * 0x1000000 + (d[off + 1] as nat) * 0x10000 + (d[off + 2] as nat)
        * 0x100 + (d[off + 3] as nat)
}

/// The ASCII digits of `v` written with exactly `digits` places,
/// zero-padded: place `i` holds `v / 10^(digits-1-i) mod 10`.
pub open spec fn code_bytes(v: nat, digits: nat) -> Seq<u8> {
    Seq::new(digits, |i: int| (0x30 + (v / pow10((digits - 1 - i) as nat)) % 10) as u8)
}

/// The same digits as characters.
pub open spec fn code_chars(v: nat, digits: nat) -> Seq<char> {
    code_bytes(v, digits).map_values(|b: u8| b as char)
}

/// The code RFC 4226 assigns to a key and a counter: the truncated
/// HMAC value reduced modulo 10^digits, written zero-padded.
pub open spec fn hotp_code(
    algorithm: HashAlgorithm,
    key: Seq<u8>,
    counter: u64,
    digits: nat,
) -> Seq<char> {
    code_chars(
        truncated(hmac_of(algorithm, key, counter_bytes_spec(counter))) % pow10(digits),
        digits,
    )
}

/// Write `v` as exactly `digits` zero-padded ASCII decimal digits.
#[verifier::loop_isolation(false)]
fn render(v: u64, digits: u32) -> (r: Vec<u8>)
    requires
        1 <= digits <= 10,
        (v as nat) < pow10(digits as nat),
    ensures
        r@ == code_bytes(v as nat, digits as nat),
{
    let mut out: Vec<u8> = Vec::new();
    let mut p: u64 = pow10_u64(digits - 1);
    let mut i: u32 = 0;
    while i < digits
        invariant
            i <= digits,
            out@.len() == i,
            p >= 1,
            i < digits ==> p == pow10((digits - 1 - i) as nat),
            forall|j: int|
                0 <= j < i ==> #[trigger] out@[j] == code_bytes(v as nat, digits as nat)[j],
        decreases digits - i,
    {
        let digit = ((v / p) % 10) as u8;
        out.push(0x30 + digit);
        if i + 1 < digits {
            proof {
                assert(pow10((digits - 1 - i) as nat) == 10 * pow10((digits - 2 - i) as nat));
                lemma_div_multiples_vanish(pow10((digits - 2 - i) as nat) as int, 10);
            }
            p = p / 10;
        }
        i += 1;
    }
    assert(out@ =~= code_bytes(v as nat, digits as nat));
    out
}

/// Truncate a digest to a code per RFC 4226: the digest's last four
/// bits pick an offset, the 31 bits there reduced modulo 10^digits
/// give the value, written zero-padded. Every supported digest has at
/// least 20 bytes, so the four bytes at the offset always exist.
pub fn truncate_code(digest: &[u8], digits: u32) -> (r: String)
    requires
        digest@.len() >= 20,
        1 <= digits <= 10,
    ensures
        r@ == code_chars(truncated(digest@) % pow10(digits as nat), digits as nat),
        r@.len() == digits,
{
    let ghost d = digest@;
    let last = digest[digest.len() - 1];
    assert(last & 0x0f < 16) by (bit_vector);
    let off = (last & 0x0f) as usize;
    assert(d.last() == last);
    let doff = digest[off];
    let x0 = doff & 0x7f;
    assert(doff & 0x7f < 128) by (bit_vector);
    let p: u32 = (x0 as u32) * 0x1000000 + (digest[off + 1] as u32) * 0x10000 + (digest[off + 2]
        as u32) * 0x100 + (digest[off + 3] as u32);
    assert(p as nat == truncated(d));
    let m = pow10_u64(digits);
    let v = (p as u64) % m;
    assert((v as nat) == truncated(d) % pow10(digits as nat));
    let bytes = render(v, digits);
    assert(forall|i: int| 0 <= i < bytes@.len() ==> #[trigger] bytes@[i] < 128);
    let s = ascii_string(bytes);
    proof {
        assert(s@ =~= code_chars(truncated(d) % pow10(digits as nat), digits as nat));
    }
    s
}

/// Generate one HOTP code per RFC 4226: HMAC over the big-endian
/// counter, then dynamic truncation down to `digits` decimal places.
pub fn hotp(key: &[u8], counter: u64, digits: u32, algorithm: HashAlgorithm) -> (r: String)
    requires
        key@.len() > 0,
        1 <= digits <= 10,
    ensures
        r@ == hotp_code(algorithm, key@, counter, digits as nat),
        r@.len() == digits,
{
    let msg = counter_bytes(counter);
    let digest = hmac(algorithm, key, msg.as_slice());
    truncate_code(digest.as_slice(), digits)
}

/// The code is a pure function of its inputs: two codes generated from
/// the same key, counter, digit count and algorithm are one code.
pub proof fn lemma_hotp_deterministic(
    algorithm: HashAlgorithm,
    key: Seq<u8>,
    counter: u64,
    digits: nat,
    r1: Seq<char>,
    r2: Seq<char>,
)
    requires
        r1 == hotp_code(algorithm, key, counter, digits),
        r2 == hotp_code(algorithm, key, counter, digits),
    ensures
        r1 == r2,
{
}

/// A code has exactly `digits` characters, zero-padding included.
pub proof fn lemma_hotp_code_length(
    algorithm: HashAlgorithm,
    key: Seq<u8>,
    counter: u64,
    digits: nat,
)
    ensures
        hotp_code(algorithm, key, counter, digits).len() == digits,
{
}

} // verus!
