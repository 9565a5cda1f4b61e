//! RFC 4648 base32: a tolerant decoder and a plain encoder.
//!
//! The decoder ignores ASCII whitespace anywhere in the input and `=`
//! padding at its end, reads the alphabet case-insensitively, and fails
//! when any other character appears or when the bits left over after the
//! last full byte are not zero. The encoder emits the upper-case alphabet
//! without padding.

use vstd::prelude::*;
use vstd::arithmetic::power2::{lemma2_to64, lemma_pow2_adds, lemma_pow2_pos, pow2};
use vstd::arithmetic::div_mod::{lemma_multiply_divide_lt, lemma_small_mod};
use vstd::string::StringSliceAdditionalSpecFns;

use crate::OtpError;

verus! {

/// ASCII whitespace, the characters the decoder skips.
pub open spec fn is_b32_ws(c: u8) -> bool {
    c == 32 || c == 9 || c == 10 || c == 12 || c == 13
}

/// Whether `c` belongs to the base32 alphabet, either case.
pub open spec fn is_b32(c: u8) -> bool {
    ('A' as u8) <= c <= ('Z' as u8) || ('a' as u8) <= c <= ('z' as u8) || ('2' as u8) <= c
        <= ('7' as u8)
}

/// The 5-bit value of an alphabet character; unspecified junk elsewhere.
pub open spec fn b32_val(c: u8) -> u8 {
    if ('A' as u8) <= c <= ('Z' as u8) {
        (c - ('A' as u8)) as u8
    } else if ('a' as u8) <= c <= ('z' as u8) {
        (c - ('a' as u8)) as u8
    } else if ('2' as u8) <= c <= ('7' as u8) {
        (c - ('2' as u8) + 26) as u8
    } else {
        0
    }
}

/// The input with ASCII whitespace removed.
pub open spec fn strip_ws(s: Seq<u8>) -> Seq<u8>
    decreases s.len(),
{
    if s.len() == 0 {
        seq![]
    } else if is_b32_ws(s[0]) {
        strip_ws(s.drop_first())
    } else {
        seq![s[0]] + strip_ws(s.drop_first())
    }
}

/// The input with trailing `=` padding removed.
pub open spec fn strip_pad(s: Seq<u8>) -> Seq<u8>
    decreases s.len(),
{
    if s.len() > 0 && s.last() == ('=' as u8) {
        strip_pad(s.drop_last())
    } else {
        s
    }
}

/// Every character is a base32 alphabet character.
pub open spec fn all_b32(s: Seq<u8>) -> bool {
    forall|i: int| 0 <= i < s.len() ==> is_b32(s[i])
}

/// The 5-bit values of a run of alphabet characters.
pub open spec fn b32_vals(s: Seq<u8>) -> Seq<u8> {
    Seq::new(s.len(), |i: int| b32_val(s[i]))
}

/// The bytes that packing a run of 5-bit values emits, starting from an
/// accumulator that already holds `nbits` bits of value `acc`. A byte
/// leaves the accumulator as soon as it holds eight bits or more.
pub open spec fn dec_emit(vals: Seq<u8>, acc: nat, nbits: nat) -> Seq<u8>
    decreases vals.len(),
{
    if vals.len() == 0 {
        seq![]
    } else {
        let a = (acc * 32 + vals[0]) as nat;
        let n = (nbits + 5) as nat;
        if n >= 8 {
            seq![(((a / pow2((n - 8) as nat)) % 256) as u8)] + dec_emit(
                vals.drop_first(),
                a % pow2((n - 8) as nat),
                (n - 8) as nat,
            )
        } else {
            dec_emit(vals.drop_first(), a, n)
        }
    }
}

/// The accumulator state that is left after packing a run of 5-bit values.
pub open spec fn dec_state(vals: Seq<u8>, acc: nat, nbits: nat) -> (nat, nat)
    decreases vals.len(),
{
    if vals.len() == 0 {
        (acc, nbits)
    } else {
        let a = (acc * 32 + vals[0]) as nat;
        let n = (nbits + 5) as nat;
        if n >= 8 {
            dec_state(vals.drop_first(), a % pow2((n - 8) as nat), (n - 8) as nat)
        } else {
            dec_state(vals.drop_first(), a, n)
        }
    }
}

/// What decoding a base32 string yields: `None` on a character outside
/// the alphabet (after whitespace and padding are dropped), or when the
/// bits left over after the last full byte are not all zero.
pub open spec fn b32_decode_spec(s: Seq<u8>) -> Option<Seq<u8>> {
    let t = strip_pad(strip_ws(s));
    if all_b32(t) && dec_state(b32_vals(t), 0, 0).0 == 0 {
        Some(dec_emit(b32_vals(t), 0, 0))
    } else {
        None
    }
}

/// A byte of the group, or zero past its end.
pub open spec fn pad0(b: Seq<u8>, i: int) -> u8 {
    if i < b.len() {
        b[i]
    } else {
        0
    }
}

/// The eight 5-bit values that encode one full 5-byte group, each the
/// next five bits of the group read from the most significant end.
pub open spec fn enc_block(b0: u8, b1: u8, b2: u8, b3: u8, b4: u8) -> Seq<u8> {
    seq![
        ((b0 as nat) / 8) as u8,
        (((b0 as nat) % 8) * 4 + (b1 as nat) / 64) as u8,
        (((b1 as nat) / 2) % 32) as u8,
        (((b1 as nat) % 2) * 16 + (b2 as nat) / 16) as u8,
        (((b2 as nat) % 16) * 2 + (b3 as nat) / 128) as u8,
        (((b3 as nat) / 4) % 32) as u8,
        (((b3 as nat) % 4) * 8 + (b4 as nat) / 32) as u8,
        ((b4 as nat) % 32) as u8,
    ]
}

/// How many 5-bit values a final group of `n` bytes needs.
pub open spec fn tail_len(n: nat) -> nat {
    if n == 1 {
        2
    } else if n == 2 {
        4
    } else if n == 3 {
        5
    } else if n == 4 {
        7
    } else {
        0
    }
}

/// The 5-bit values that encode a byte sequence, without padding.
pub open spec fn enc_vals(b: Seq<u8>) -> Seq<u8>
    decreases b.len(),
{
    if b.len() >= 5 {
        enc_block(b[0], b[1], b[2], b[3], b[4]) + enc_vals(b.skip(5))
    } else {
        enc_block(pad0(b, 0), pad0(b, 1), pad0(b, 2), pad0(b, 3), pad0(b, 4)).take(
            tail_len(b.len()) as int,
        )
    }
}

/// The upper-case alphabet character for a 5-bit value.
pub open spec fn alph(v: u8) -> u8 {
    if v < 26 {
        (('A' as u8) + v) as u8
    } else {
        (('2' as u8) + (v - 26)) as u8
    }
}

/// What encoding a byte sequence yields: unpadded upper-case base32.
pub open spec fn b32_encode_spec(b: Seq<u8>) -> Seq<u8> {
    enc_vals(b).map_values(|v: u8| alph(v))
}

/// Every value a group encodes to fits in five bits.
proof fn lemma_enc_block_bounds(b0: u8, b1: u8, b2: u8, b3: u8, b4: u8)
    ensures
        forall|i: int| 0 <= i < 8 ==> (#[trigger] enc_block(b0, b1, b2, b3, b4)[i]) < 32,
{
    assert((b0 as nat) / 8 < 32 && (b1 as nat) / 64 < 4 && (b2 as nat) / 16 < 16 && (b3 as nat)
        / 128 < 2 && (b4 as nat) / 32 < 8 && ((b1 as nat) / 2) % 32 < 32 && ((b3 as nat) / 4) % 32
        < 32 && (b4 as nat) % 32 < 32 && (b0 as nat) % 8 < 8 && (b1 as nat) % 2 < 2 && (b2 as nat)
        % 16 < 16 && (b3 as nat) % 4 < 4) by (nonlinear_arith);
    assert forall|i: int| 0 <= i < 8 implies (#[trigger] enc_block(b0, b1, b2, b3, b4)[i]) < 32 by {
        assert(((b0 as nat) % 8) * 4 + (b1 as nat) / 64 < 32);
        assert(((b1 as nat) % 2) * 16 + (b2 as nat) / 16 < 32);
        assert(((b2 as nat) % 16) * 2 + (b3 as nat) / 128 < 32);
        assert(((b3 as nat) % 4) * 8 + (b4 as nat) / 32 < 32);
    }
}

/// The alphabet character of a 5-bit value, executable form.
fn alph_char(v: u8) -> (r: u8)
    requires
        v < 32,
    ensures
        r == alph(v),
{
    if v < 26 {
        65 + v
    } else {
        50 + (v - 26)
    }
}

/// Append the eight 5-bit values of one full group.
fn push_group(vals: &mut Vec<u8>, b0: u8, b1: u8, b2: u8, b3: u8, b4: u8)
    ensures
        final(vals)@ == old(vals)@ + enc_block(b0, b1, b2, b3, b4),
        forall|j: int|
            0 <= j < final(vals)@.len() ==> (#[trigger] final(vals)@[j]) < 32 || (0 <= j < old(
                vals,
            )@.len() && final(vals)@[j] == old(vals)@[j]),
{
    proof {
        lemma_enc_block_bounds(b0, b1, b2, b3, b4);
    }
    vals.push(b0 / 8);
    vals.push((b0 % 8) * 4 + b1 / 64);
    vals.push((b1 / 2) % 32);
    vals.push((b1 % 2) * 16 + b2 / 16);
    vals.push((b2 % 16) * 2 + b3 / 128);
    vals.push((b3 / 4) % 32);
    vals.push((b3 % 4) * 8 + b4 / 32);
    vals.push(b4 % 32);
    assert(vals@ =~= old(vals)@ + enc_block(b0, b1, b2, b3, b4));
}

/// Encode bytes as unpadded upper-case base32 characters.
#[verifier::loop_isolation(false)]
pub fn encode_bytes(b: &[u8]) -> (r: Vec<u8>)
    ensures
        r@ == b32_encode_spec(b@),
{
    let mut vals: Vec<u8> = Vec::new();
    let mut i: usize = 0;
    assert(b@.skip(0) =~= b@);
    while b.len() - i >= 5
        invariant
            i <= b@.len(),
            enc_vals(b@) == vals@ + enc_vals(b@.skip(i as int)),
            forall|j: int| 0 <= j < vals@.len() ==> (#[trigger] vals@[j]) < 32,
        decreases b@.len() - i,
    {
        let ghost rest = b@.skip(i as int);
        assert(rest.skip(5) =~= b@.skip(i as int + 5));
        push_group(&mut vals, b[i], b[i + 1], b[i + 2], b[i + 3], b[i + 4]);
        i += 5;
        assert(vals@ + enc_vals(b@.skip(i as int)) =~= enc_vals(b@));
    }
    let rem = b.len() - i;
    let c0 = if rem >= 1 { b[i] } else { 0 };
    let c1 = if rem >= 2 { b[i + 1] } else { 0 };
    let c2 = if rem >= 3 { b[i + 2] } else { 0 };
    let c3 = if rem >= 4 { b[i + 3] } else { 0 };
    let ghost tail = b@.skip(i as int);
    proof {
        assert(pad0(tail, 0) == c0 && pad0(tail, 1) == c1 && pad0(tail, 2) == c2 && pad0(tail, 3)
            == c3 && pad0(tail, 4) == 0);
    }
    let mut group: Vec<u8> = Vec::new();
    push_group(&mut group, c0, c1, c2, c3, 0);
    let keep: usize = if rem == 1 {
        2
    } else if rem == 2 {
        4
    } else if rem == 3 {
        5
    } else if rem == 4 {
        7
    } else {
        0
    };
    let mut j: usize = 0;
    while j < keep
        invariant
            j <= keep,
            vals@.len() == enc_vals(b@).len() - keep + j,
            vals@ == enc_vals(b@).take(vals@.len() as int),
            forall|m: int| 0 <= m < vals@.len() ==> (#[trigger] vals@[m]) < 32,
        decreases keep - j,
    {
        vals.push(group[j]);
        assert(vals@ =~= enc_vals(b@).take(vals@.len() as int));
        j += 1;
    }
    assert(vals@ =~= enc_vals(b@));

    let mut out: Vec<u8> = Vec::new();
    let mut k: usize = 0;
    while k < vals.len()
        invariant
            k <= vals@.len(),
            out@.len() == k,
            forall|j2: int| 0 <= j2 < k ==> #[trigger] out@[j2] == alph(vals@[j2]),
        decreases vals@.len() - k,
    {
        let c = alph_char(vals[k]);
        out.push(c);
        k += 1;
    }
    assert(out@ =~= b32_encode_spec(b@));
    out
}

/// Encode bytes as an unpadded upper-case base32 string.
pub fn encode(bytes: &[u8]) -> (r: String)
    ensures
        r@ == b32_encode_spec(bytes@).map_values(|b: u8| b as char),
{
    let v = encode_bytes(bytes);
    proof {
        lemma_enc_vals_bounds(bytes@);
        lemma_alph_facts();
        assert forall|i: int| 0 <= i < v@.len() implies v@[i] < 128 by {
            assert(v@[i] == alph(enc_vals(bytes@)[i]));
        }
    }
    crate::ascii_string(v)
}

/// The input with whitespace removed, then padding stripped from its end.
#[verifier::loop_isolation(false)]
fn clean(s: &[u8]) -> (r: Vec<u8>)
    ensures
        r@ == strip_pad(strip_ws(s@)),
{
    let mut kept: Vec<u8> = Vec::new();
    let mut i: usize = 0;
    assert(s@.skip(0) =~= s@);
    while i < s.len()
        invariant
            i <= s@.len(),
            strip_ws(s@) == kept@ + strip_ws(s@.skip(i as int)),
        decreases s@.len() - i,
    {
        let c = s[i];
        assert(s@.skip(i as int).drop_first() =~= s@.skip(i as int + 1));
        if !(c == 32 || c == 9 || c == 10 || c == 12 || c == 13) {
            kept.push(c);
        }
        i += 1;
    }
    assert(strip_ws(s@.skip(i as int)) =~= seq![]);
    assert(kept@ =~= strip_ws(s@));
    while kept.len() > 0 && kept[kept.len() - 1] == 61
        invariant
            strip_pad(kept@) == strip_pad(strip_ws(s@)),
        decreases kept@.len(),
    {
        assert(kept@.last() == ('=' as u8));
        let _ = kept.pop();
    }
    assert(kept@ =~= strip_pad(kept@));
    kept
}

/// The 5-bit value of one character, or `None` outside the alphabet.
fn char_val(c: u8) -> (r: Option<u8>)
    ensures
        r is Some <==> is_b32(c),
        is_b32(c) ==> r == Some(b32_val(c)),
{
    if 65 <= c && c <= 90 {
        Some(c - 65)
    } else if 97 <= c && c <= 122 {
        Some(c - 97)
    } else if 50 <= c && c <= 55 {
        Some(c - 50 + 26)
    } else {
        None
    }
}

/// One power of two below 2^5, by table.
fn pow2_small(e: u32) -> (r: u32)
    requires
        e <= 4,
    ensures
        r == pow2(e as nat),
{
    proof {
        lemma2_to64();
    }
    if e == 0 {
        1
    } else if e == 1 {
        2
    } else if e == 2 {
        4
    } else if e == 3 {
        8
    } else {
        16
    }
}

/// Decode the bytes of a base32 string.
#[verifier::loop_isolation(false)]
pub fn decode_bytes(s: &[u8]) -> (r: Option<Vec<u8>>)
    ensures
        match r {
            Some(v) => b32_decode_spec(s@) == Some(v@),
            None => b32_decode_spec(s@) is None,
        },
{
    let t = clean(s);
    let mut vals: Vec<u8> = Vec::new();
    let mut i: usize = 0;
    while i < t.len()
        invariant
            i <= t@.len(),
            vals@.len() == i,
            forall|j: int| 0 <= j < i ==> is_b32(#[trigger] t@[j]),
            forall|j: int| 0 <= j < i ==> #[trigger] vals@[j] == b32_val(t@[j]),
        decreases t@.len() - i,
    {
        let cv = char_val(t[i]);
        match cv {
            Some(v) => {
                vals.push(v);
            },
            None => {
                assert(!all_b32(t@));
                return None;
            },
        }
        i += 1;
    }
    assert(all_b32(t@));
    assert(vals@ =~= b32_vals(t@));

    let mut out: Vec<u8> = Vec::new();
    let mut acc: u32 = 0;
    let mut nbits: u32 = 0;
    let mut k: usize = 0;
    assert(vals@.skip(0) =~= vals@);
    proof {
        lemma2_to64();
    }
    while k < vals.len()
        invariant
            k <= vals@.len(),
            nbits <= 7,
            acc < pow2(nbits as nat),
            pow2(nbits as nat) <= 128,
            dec_emit(b32_vals(t@), 0, 0) == out@ + dec_emit(vals@.skip(k as int), acc as nat, nbits as nat),
            dec_state(b32_vals(t@), 0, 0) == dec_state(vals@.skip(k as int), acc as nat, nbits as nat),
            vals@ == b32_vals(t@),
            forall|j: int| 0 <= j < vals@.len() ==> vals@[j] < 32,
        decreases vals@.len() - k,
    {
        let ghost pre = vals@.skip(k as int);
        assert(pre.drop_first() =~= vals@.skip(k as int + 1));
        assert(pre[0] == vals@[k as int]);
        let v = vals[k];
        let a: u32 = acc * 32 + v as u32;
        let n: u32 = nbits + 5;
        proof {
            lemma_pow2_adds(nbits as nat, 5);
            assert(pow2(5) == 32) by {
                lemma2_to64();
            }
            assert((acc * 32 + v) < pow2(nbits as nat) * 32);
        }
        if n >= 8 {
            let sh: u32 = n - 8;
            let divisor = pow2_small(sh);
            proof {
                lemma_pow2_pos(sh as nat);
                lemma_pow2_adds(sh as nat, 8);
                assert(pow2(8) == 256) by {
                    lemma2_to64();
                }
                assert((a as int) < pow2(sh as nat) * 256);
                lemma_multiply_divide_lt(a as int, pow2(sh as nat) as int, 256);
                lemma_small_mod((a as nat / pow2(sh as nat)) as nat, 256);
            }
            let e: u32 = a / divisor;
            assert(e < 256);
            out.push(e as u8);
            acc = a % divisor;
            nbits = sh;
            proof {
                lemma2_to64();
                assert(pow2(nbits as nat) <= 16);
            }
        } else {
            acc = a;
            nbits = n;
            proof {
                lemma2_to64();
                assert(pow2(nbits as nat) <= 128);
            }
        }
        k += 1;
    }
    assert(vals@.skip(k as int) =~= seq![]);
    assert(out@ == dec_emit(b32_vals(t@), 0, 0));
    assert(dec_state(b32_vals(t@), 0, 0) == (acc as nat, nbits as nat));
    if acc == 0 {
        Some(out)
    } else {
        None
    }
}

/// Decode a base32 secret string into raw bytes.
///
/// Whitespace anywhere and `=` padding at the end are ignored; letters
/// match case-insensitively. Any other character, or leftover bits that
/// are not zero, is an encoding error.
pub fn decode(s: &str) -> (r: Result<Vec<u8>, OtpError>)
    ensures
        match r {
            Ok(v) => b32_decode_spec(s.spec_bytes()) == Some(v@),
            Err(e) => b32_decode_spec(s.spec_bytes()) is None && e == OtpError::InvalidEncoding,
        },
{
    match decode_bytes(s.as_bytes()) {
        Some(v) => Ok(v),
        None => Err(OtpError::InvalidEncoding),
    }
}

/// Packing distributes over splitting the values in two runs: the second
/// run starts from the state the first one left behind.
proof fn lemma_dec_split(s1: Seq<u8>, s2: Seq<u8>, acc: nat, nbits: nat)
    ensures
        dec_emit(s1 + s2, acc, nbits) == dec_emit(s1, acc, nbits) + dec_emit(
            s2,
            dec_state(s1, acc, nbits).0,
            dec_state(s1, acc, nbits).1,
        ),
        dec_state(s1 + s2, acc, nbits) == dec_state(
            s2,
            dec_state(s1, acc, nbits).0,
            dec_state(s1, acc, nbits).1,
        ),
    decreases s1.len(),
{
    if s1.len() == 0 {
        assert(s1 + s2 =~= s2);
        assert(dec_emit(s1, acc, nbits) =~= Seq::<u8>::empty());
        assert(dec_state(s1, acc, nbits) == ((acc, nbits)));
        assert(dec_emit(s1, acc, nbits) + dec_emit(s2, acc, nbits) =~= dec_emit(s2, acc, nbits));
    } else {
        let a = (acc * 32 + s1[0]) as nat;
        let n = (nbits + 5) as nat;
        assert((s1 + s2).drop_first() =~= s1.drop_first() + s2);
        assert((s1 + s2)[0] == s1[0]);
        if n >= 8 {
            lemma_pow2_pos((n - 8) as nat);
            let acc2 = a % pow2((n - 8) as nat);
            let e = (((a / pow2((n - 8) as nat)) % 256) as u8);
            lemma_dec_split(s1.drop_first(), s2, acc2, (n - 8) as nat);
            let st = dec_state(s1.drop_first(), acc2, (n - 8) as nat);
            assert(seq![e] + (dec_emit(s1.drop_first(), acc2, (n - 8) as nat) + dec_emit(
                s2,
                st.0,
                st.1,
            )) =~= (seq![e] + dec_emit(s1.drop_first(), acc2, (n - 8) as nat)) + dec_emit(
                s2,
                st.0,
                st.1,
            ));
        } else {
            lemma_dec_split(s1.drop_first(), s2, a, n);
        }
    }
}

/// Unpacking one 5-bit value from a known accumulator state.
proof fn lemma_dec_one(w: u8, acc: nat, nbits: nat)
    ensures
        nbits + 5 >= 8 ==> dec_emit(seq![w], acc, nbits) == seq![
            (((((acc * 32 + w) as nat) / pow2((nbits - 3) as nat)) % 256) as u8),
        ] && dec_state(seq![w], acc, nbits) == (
            (((acc * 32 + w) as nat) % pow2((nbits - 3) as nat)),
            (nbits - 3) as nat,
        ),
        nbits + 5 < 8 ==> dec_emit(seq![w], acc, nbits) == Seq::<u8>::empty() && dec_state(
            seq![w],
            acc,
            nbits,
        ) == (((acc * 32 + w) as nat, (nbits + 5) as nat)),
{
    reveal_with_fuel(dec_emit, 3);
    reveal_with_fuel(dec_state, 3);
    let s = seq![w];
    let a = (acc * 32 + w) as nat;
    assert(s[0] == w);
    assert(s.drop_first() =~= Seq::<u8>::empty());
    if nbits + 5 >= 8 {
        let sh = (nbits - 3) as nat;
        lemma_pow2_pos(sh);
        assert(dec_emit(Seq::<u8>::empty(), a % pow2(sh), sh) =~= Seq::<u8>::empty());
        assert(dec_state(Seq::<u8>::empty(), a % pow2(sh), sh) == ((a % pow2(sh), sh)));
        let e = ((a / pow2(sh)) % 256) as u8;
        assert(seq![e] + Seq::<u8>::empty() =~= seq![e]);
    } else {
        let n = (nbits + 5) as nat;
        assert(dec_emit(Seq::<u8>::empty(), a, n) =~= Seq::<u8>::empty());
        assert(dec_state(Seq::<u8>::empty(), a, n) == ((a, n)));
    }
}

/// What unpacking recovers from the values of one encoded group, prefix
/// by prefix: after 2, 4, 5, 7 and 8 values the group's bytes reappear
/// in order, and the bits still in the accumulator are the bits of the
/// next byte, so they are zero wherever that byte is zero padding.
proof fn lemma_group_chain(b0: u8, b1: u8, b2: u8, b3: u8, b4: u8)
    ensures
        dec_emit(enc_block(b0, b1, b2, b3, b4).take(2), 0, 0) == seq![b0],
        dec_state(enc_block(b0, b1, b2, b3, b4).take(2), 0, 0) == (((b1 as nat) / 64, 2nat)),
        dec_emit(enc_block(b0, b1, b2, b3, b4).take(4), 0, 0) == seq![b0, b1],
        dec_state(enc_block(b0, b1, b2, b3, b4).take(4), 0, 0) == (((b2 as nat) / 16, 4nat)),
        dec_emit(enc_block(b0, b1, b2, b3, b4).take(5), 0, 0) == seq![b0, b1, b2],
        dec_state(enc_block(b0, b1, b2, b3, b4).take(5), 0, 0) == (((b3 as nat) / 128, 1nat)),
        dec_emit(enc_block(b0, b1, b2, b3, b4).take(7), 0, 0) == seq![b0, b1, b2, b3],
        dec_state(enc_block(b0, b1, b2, b3, b4).take(7), 0, 0) == (((b4 as nat) / 32, 3nat)),
        dec_emit(enc_block(b0, b1, b2, b3, b4), 0, 0) == seq![b0, b1, b2, b3, b4],
        dec_state(enc_block(b0, b1, b2, b3, b4), 0, 0) == ((0nat, 0nat)),
{
    lemma2_to64();
    lemma_enc_block_bounds(b0, b1, b2, b3, b4);
    let g = enc_block(b0, b1, b2, b3, b4);
    let n0 = b0 as nat;
    let n1 = b1 as nat;
    let n2 = b2 as nat;
    let n3 = b3 as nat;
    let n4 = b4 as nat;
    let w0 = g[0];
    let w1 = g[1];
    let w2 = g[2];
    let w3 = g[3];
    let w4 = g[4];
    let w5 = g[5];
    let w6 = g[6];
    let w7 = g[7];
    vstd::arithmetic::div_mod::lemma_fundamental_div_mod(n0 as int, 8);
    vstd::arithmetic::div_mod::lemma_fundamental_div_mod(n1 as int, 2);
    vstd::arithmetic::div_mod::lemma_fundamental_div_mod(n2 as int, 16);
    vstd::arithmetic::div_mod::lemma_fundamental_div_mod(n3 as int, 4);
    vstd::arithmetic::div_mod::lemma_fundamental_div_mod(n4 as int, 32);
    vstd::arithmetic::div_mod::lemma_fundamental_div_mod((n1 / 2) as int, 32);
    vstd::arithmetic::div_mod::lemma_fundamental_div_mod((n3 / 4) as int, 32);
    vstd::arithmetic::div_mod::lemma_div_denominator(n1 as int, 2, 32);
    vstd::arithmetic::div_mod::lemma_div_denominator(n3 as int, 4, 32);
    lemma_multiply_divide_lt(n1 as int, 64, 4);
    lemma_multiply_divide_lt(n2 as int, 16, 16);
    lemma_multiply_divide_lt(n3 as int, 128, 2);
    lemma_multiply_divide_lt(n4 as int, 32, 8);
    // step 1: the first value only fills the accumulator
    assert(g.take(1) =~= Seq::<u8>::empty() + seq![w0]);
    assert(dec_state(Seq::<u8>::empty(), 0, 0) == ((0nat, 0nat)));
    lemma_dec_split(Seq::<u8>::empty(), seq![w0], 0, 0);
    lemma_dec_one(w0, 0, 0);
    assert(dec_emit(g.take(1), 0, 0) == Seq::<u8>::empty());
    assert(dec_state(g.take(1), 0, 0) == (((w0 as nat), 5nat)));
    // step 2 emits the first byte
    assert(g.take(2) =~= g.take(1) + seq![w1]);
    lemma_dec_split(g.take(1), seq![w1], 0, 0);
    lemma_dec_one(w1, w0 as nat, 5);
    let a1 = (w0 as nat) * 32 + w1;
    assert(a1 == 4 * n0 + n1 / 64);
    vstd::arithmetic::div_mod::lemma_fundamental_div_mod_converse(
        a1 as int,
        4,
        n0 as int,
        (n1 / 64) as int,
    );
    lemma_small_mod(n0, 256);
    assert(dec_emit(g.take(2), 0, 0) =~= seq![b0]);
    assert(dec_state(g.take(2), 0, 0) == ((n1 / 64, 2nat)));
    // step 3 only fills the accumulator back up
    assert(g.take(3) =~= g.take(2) + seq![w2]);
    lemma_dec_split(g.take(2), seq![w2], 0, 0);
    lemma_dec_one(w2, n1 / 64, 2);
    let a2 = (n1 / 64) * 32 + w2;
    assert(a2 == n1 / 2);
    assert(dec_emit(g.take(3), 0, 0) =~= seq![b0]);
    assert(dec_state(g.take(3), 0, 0) == ((n1 / 2, 7nat)));
    // step 4 emits the second byte
    assert(g.take(4) =~= g.take(3) + seq![w3]);
    lemma_dec_split(g.take(3), seq![w3], 0, 0);
    lemma_dec_one(w3, n1 / 2, 7);
    let a3 = (n1 / 2) * 32 + w3;
    assert(a3 == 16 * n1 + n2 / 16);
    vstd::arithmetic::div_mod::lemma_fundamental_div_mod_converse(
        a3 as int,
        16,
        n1 as int,
        (n2 / 16) as int,
    );
    lemma_small_mod(n1, 256);
    assert(dec_emit(g.take(4), 0, 0) =~= seq![b0, b1]);
    assert(dec_state(g.take(4), 0, 0) == ((n2 / 16, 4nat)));
    // step 5 emits the third byte
    assert(g.take(5) =~= g.take(4) + seq![w4]);
    lemma_dec_split(g.take(4), seq![w4], 0, 0);
    lemma_dec_one(w4, n2 / 16, 4);
    let a4 = (n2 / 16) * 32 + w4;
    assert(a4 == 2 * n2 + n3 / 128);
    vstd::arithmetic::div_mod::lemma_fundamental_div_mod_converse(
        a4 as int,
        2,
        n2 as int,
        (n3 / 128) as int,
    );
    lemma_small_mod(n2, 256);
    assert(dec_emit(g.take(5), 0, 0) =~= seq![b0, b1, b2]);
    assert(dec_state(g.take(5), 0, 0) == ((n3 / 128, 1nat)));
    // step 6 only fills the accumulator back up
    assert(g.take(6) =~= g.take(5) + seq![w5]);
    lemma_dec_split(g.take(5), seq![w5], 0, 0);
    lemma_dec_one(w5, n3 / 128, 1);
    let a5 = (n3 / 128) * 32 + w5;
    assert(a5 == n3 / 4);
    assert(dec_emit(g.take(6), 0, 0) =~= seq![b0, b1, b2]);
    assert(dec_state(g.take(6), 0, 0) == ((n3 / 4, 6nat)));
    // step 7 emits the fourth byte
    assert(g.take(7) =~= g.take(6) + seq![w6]);
    lemma_dec_split(g.take(6), seq![w6], 0, 0);
    lemma_dec_one(w6, n3 / 4, 6);
    let a6 = (n3 / 4) * 32 + w6;
    assert(a6 == 8 * n3 + n4 / 32);
    vstd::arithmetic::div_mod::lemma_fundamental_div_mod_converse(
        a6 as int,
        8,
        n3 as int,
        (n4 / 32) as int,
    );
    lemma_small_mod(n3, 256);
    assert(dec_emit(g.take(7), 0, 0) =~= seq![b0, b1, b2, b3]);
    assert(dec_state(g.take(7), 0, 0) == ((n4 / 32, 3nat)));
    // step 8 emits the fifth byte and drains the accumulator
    assert(g.take(8) =~= g.take(7) + seq![w7]);
    lemma_dec_split(g.take(7), seq![w7], 0, 0);
    lemma_dec_one(w7, n4 / 32, 3);
    let a7 = (n4 / 32) * 32 + w7;
    assert(a7 == n4);
    vstd::arithmetic::div_mod::lemma_fundamental_div_mod_converse(a7 as int, 1, n4 as int, 0);
    lemma_small_mod(n4, 256);
    assert(g.take(8) =~= g);
    assert(dec_emit(g, 0, 0) =~= seq![b0, b1, b2, b3, b4]);
    assert(dec_state(g, 0, 0) == ((0nat, 0nat)));
}

/// Unpacking the values that encode any byte sequence recovers that
/// sequence, with nothing left in the accumulator.
proof fn lemma_vals_round_trip(b: Seq<u8>)
    ensures
        dec_emit(enc_vals(b), 0, 0) == b,
        dec_state(enc_vals(b), 0, 0).0 == 0,
    decreases b.len(),
{
    if b.len() == 0 {
        assert(enc_vals(b) =~= Seq::<u8>::empty());
        assert(dec_emit(enc_vals(b), 0, 0) =~= b);
    } else if b.len() >= 5 {
        let blk = enc_block(b[0], b[1], b[2], b[3], b[4]);
        let rest = enc_vals(b.skip(5));
        lemma_group_chain(b[0], b[1], b[2], b[3], b[4]);
        lemma_dec_split(blk, rest, 0, 0);
        lemma_vals_round_trip(b.skip(5));
        assert(seq![b[0], b[1], b[2], b[3], b[4]] + b.skip(5) =~= b);
    } else {
        let c0 = pad0(b, 0);
        let c1 = pad0(b, 1);
        let c2 = pad0(b, 2);
        let c3 = pad0(b, 3);
        lemma_group_chain(c0, c1, c2, c3, 0);
        if b.len() == 1 {
            assert(seq![c0] =~= b);
            assert((c1 as nat) / 64 == 0);
        } else if b.len() == 2 {
            assert(seq![c0, c1] =~= b);
            assert((c2 as nat) / 16 == 0);
        } else if b.len() == 3 {
            assert(seq![c0, c1, c2] =~= b);
            assert((c3 as nat) / 128 == 0);
        } else {
            assert(seq![c0, c1, c2, c3] =~= b);
            assert((0 as nat) / 32 == 0);
        }
    }
}

/// Facts about the alphabet characters the encoder emits: none is
/// whitespace or padding, each is in the alphabet, and looking its
/// 5-bit value back up is the identity.
proof fn lemma_alph_facts()
    ensures
        forall|v: u8| v < 32 ==> !is_b32_ws(#[trigger] alph(v)) && alph(v) != ('=' as u8) && is_b32(
            alph(v),
        ) && b32_val(alph(v)) == v && alph(v) < 128,
{
}

/// Removing no character leaves `strip_ws` alone.
proof fn lemma_strip_ws_id(s: Seq<u8>)
    requires
        forall|i: int| 0 <= i < s.len() ==> !is_b32_ws(#[trigger] s[i]),
    ensures
        strip_ws(s) == s,
    decreases s.len(),
{
    if s.len() == 0 {
        assert(strip_ws(s) =~= s);
    } else {
        lemma_strip_ws_id(s.drop_first());
        assert(seq![s[0]] + s.drop_first() =~= s);
    }
}

/// Decoding what `encode` produced recovers the encoded bytes exactly:
/// the decoder undoes the encoder on every byte sequence.
pub proof fn lemma_encode_decode_round_trip(b: Seq<u8>)
    ensures
        b32_decode_spec(b32_encode_spec(b)) == Some(b),
{
    let e = b32_encode_spec(b);
    lemma_alph_facts();
    assert(forall|i: int|
        0 <= i < enc_vals(b).len() ==> (#[trigger] enc_vals(b)[i]) < 32) by {
        lemma_enc_vals_bounds(b);
    }
    assert(forall|i: int| 0 <= i < e.len() ==> !is_b32_ws(#[trigger] e[i])) by {
        assert(forall|i: int|
            0 <= i < e.len() ==> #[trigger] e[i] == alph(enc_vals(b)[i]));
    }
    lemma_strip_ws_id(e);
    assert(strip_pad(e) == e);
    assert(all_b32(e));
    assert(b32_vals(e) =~= enc_vals(b));
    lemma_vals_round_trip(b);
    assert(dec_state(b32_vals(e), 0, 0).0 == 0);
    assert(b32_decode_spec(e) == Some(dec_emit(enc_vals(b), 0, 0)));
}

/// Every 5-bit value the encoder produces fits in five bits.
proof fn lemma_enc_vals_bounds(b: Seq<u8>)
    ensures
        forall|i: int| 0 <= i < enc_vals(b).len() ==> (#[trigger] enc_vals(b)[i]) < 32,
    decreases b.len(),
{
    if b.len() >= 5 {
        lemma_enc_block_bounds(b[0], b[1], b[2], b[3], b[4]);
        lemma_enc_vals_bounds(b.skip(5));
        assert forall|i: int| 0 <= i < enc_vals(b).len() implies (#[trigger] enc_vals(b)[i])
            < 32 by {
            if i < 8 {
                assert(enc_vals(b)[i] == enc_block(b[0], b[1], b[2], b[3], b[4])[i]);
            } else {
                assert(enc_vals(b)[i] == enc_vals(b.skip(5))[i - 8]);
            }
        }
    } else {
        lemma_enc_block_bounds(pad0(b, 0), pad0(b, 1), pad0(b, 2), pad0(b, 3), pad0(b, 4));
        assert forall|i: int| 0 <= i < enc_vals(b).len() implies (#[trigger] enc_vals(b)[i])
            < 32 by {
            assert(enc_vals(b)[i] == enc_block(
                pad0(b, 0),
                pad0(b, 1),
                pad0(b, 2),
                pad0(b, 3),
                pad0(b, 4),
            )[i]);
        }
    }
}

/// The upper-case form of one ASCII character.
pub open spec fn upper(c: u8) -> u8 {
    if ('a' as u8) <= c <= ('z' as u8) {
        (c - 32) as u8
    } else {
        c
    }
}

/// Removing whitespace commutes with upper-casing the input.
proof fn lemma_strip_ws_upper(s: Seq<u8>)
    ensures
        strip_ws(s.map_values(|c: u8| upper(c))) == strip_ws(s).map_values(|c: u8| upper(c)),
    decreases s.len(),
{
    let u = s.map_values(|c: u8| upper(c));
    if s.len() == 0 {
        assert(strip_ws(u) =~= strip_ws(s).map_values(|c: u8| upper(c)));
    } else {
        lemma_strip_ws_upper(s.drop_first());
        assert(u.drop_first() =~= s.drop_first().map_values(|c: u8| upper(c)));
        assert(u[0] == upper(s[0]));
        if is_b32_ws(s[0]) {
            assert(is_b32_ws(u[0]));
        } else {
            assert(!is_b32_ws(u[0]));
            assert(seq![upper(s[0])] + strip_ws(s.drop_first()).map_values(|c: u8| upper(c)) =~= (
            seq![s[0]] + strip_ws(s.drop_first())).map_values(|c: u8| upper(c)));
        }
    }
}

/// Dropping `=` padding commutes with upper-casing the input.
proof fn lemma_strip_pad_upper(s: Seq<u8>)
    ensures
        strip_pad(s.map_values(|c: u8| upper(c))) == strip_pad(s).map_values(|c: u8| upper(c)),
    decreases s.len(),
{
    let u = s.map_values(|c: u8| upper(c));
    if s.len() == 0 {
    } else {
        assert(u.last() == upper(s.last()));
        if s.last() == ('=' as u8) {
            lemma_strip_pad_upper(s.drop_last());
            assert(u.drop_last() =~= s.drop_last().map_values(|c: u8| upper(c)));
        } else {
            assert(u.last() != ('=' as u8));
        }
    }
}

/// A string and its upper-cased form decode alike: the decoder reads
/// the base32 alphabet case-insensitively.
pub proof fn lemma_decode_case_insensitive(s: Seq<u8>)
    ensures
        b32_decode_spec(s.map_values(|c: u8| upper(c))) == b32_decode_spec(s),
{
    let u = s.map_values(|c: u8| upper(c));
    lemma_strip_ws_upper(s);
    lemma_strip_pad_upper(strip_ws(s));
    let t = strip_pad(strip_ws(s));
    let tu = strip_pad(strip_ws(u));
    assert(tu == t.map_values(|c: u8| upper(c)));
    assert(forall|c: u8| is_b32(#[trigger] upper(c)) == is_b32(c));
    assert(forall|c: u8| b32_val(#[trigger] upper(c)) == b32_val(c));
    if all_b32(t) {
        assert forall|i: int| 0 <= i < tu.len() implies is_b32(#[trigger] tu[i]) by {
            assert(is_b32(t[i]));
            assert(tu[i] == upper(t[i]));
        }
        assert(all_b32(tu));
    }
    if all_b32(tu) {
        assert forall|i: int| 0 <= i < t.len() implies is_b32(#[trigger] t[i]) by {
            assert(is_b32(tu[i]));
            assert(tu[i] == upper(t[i]));
        }
        assert(all_b32(t));
    }
    assert(b32_vals(tu) =~= b32_vals(t));
}

/// The input with its space characters removed.
pub open spec fn drop_spaces(s: Seq<u8>) -> Seq<u8>
    decreases s.len(),
{
    if s.len() == 0 {
        seq![]
    } else if s[0] == 32 {
        drop_spaces(s.drop_first())
    } else {
        seq![s[0]] + drop_spaces(s.drop_first())
    }
}

/// Removing spaces first changes nothing about whitespace removal.
proof fn lemma_strip_ws_drop_spaces(s: Seq<u8>)
    ensures
        strip_ws(drop_spaces(s)) == strip_ws(s),
    decreases s.len(),
{
    if s.len() == 0 {
    } else {
        lemma_strip_ws_drop_spaces(s.drop_first());
        if s[0] == 32 {
        } else {
            let cons = seq![s[0]] + drop_spaces(s.drop_first());
            assert(cons[0] == s[0]);
            assert(cons.drop_first() =~= drop_spaces(s.drop_first()));
        }
    }
}

/// Embedded spaces do not matter: a secret with spaces decodes exactly
/// as its space-free form does.
pub proof fn lemma_decode_ignores_spaces(s: Seq<u8>)
    ensures
        b32_decode_spec(drop_spaces(s)) == b32_decode_spec(s),
{
    lemma_strip_ws_drop_spaces(s);
}

} // verus!
