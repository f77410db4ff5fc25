//! zkLogin derivation helpers: address seeds, addresses and nonces.
//!
//! These operate over the BN254 scalar field used by the zkLogin circuits.
//! The Poseidon hash is consumed as an opaque primitive over field elements;
//! the address digest and the nonce's text encoding are likewise opaque
//! primitives, each named by an uninterpreted function so that every
//! derivation step around them is pinned exactly.

use vstd::prelude::*;
use crate::CryptoError;
use crate::words::{
    be_bytes_nat, le_words_nat, words_from_le_bytes, reverse_bytes, sub_bytes,
    big_lt, lemma_reverse_swaps_endianness, lemma_be_bytes_split, lemma_be_bytes_single,
    lemma_be_bytes_nat_zero, lemma_be_bytes_nat_bound, lemma_le_words_unfold,
    lemma_le_words_empty,
};
use vstd::arithmetic::power::pow;
use vstd::string::StrSliceExecFns;
use vstd::string::StringSliceAdditionalSpecFns;

verus! {

/// Order of the BN254 scalar field, over which the zkLogin circuits work.
pub open spec fn bn254_modulus() -> nat {
    0x30644e72e131a029b85045b68181585d2833e84879b9709143e1f593f0000001nat
}

/// The BN254 scalar modulus, as four little-endian 64-bit words.
pub open spec fn spec_bn254_modulus_words() -> Seq<u64> {
    seq![
        0x43e1f593f0000001u64,
        0x2833e84879b97091u64,
        0xb85045b68181585du64,
        0x30644e72e131a029u64,
    ]
}

proof fn lemma_bn254_modulus_words_val()
    ensures
        le_words_nat(spec_bn254_modulus_words()) == bn254_modulus(),
{
    let s = spec_bn254_modulus_words();
    lemma_le_words_unfold(s);
    lemma_le_words_unfold(s.drop_first());
    lemma_le_words_unfold(s.drop_first().drop_first());
    lemma_le_words_unfold(s.drop_first().drop_first().drop_first());
    lemma_le_words_empty(s.drop_first().drop_first().drop_first().drop_first());
}

/// The BN254 scalar modulus as an executable word vector.
fn bn254_modulus_words() -> (r: Vec<u64>)
    ensures
        r@ =~= spec_bn254_modulus_words(),
        le_words_nat(r@) == bn254_modulus(),
{
    let r: Vec<u64> = vec![
        0x43e1f593f0000001u64,
        0x2833e84879b97091u64,
        0xb85045b68181585du64,
        0x30644e72e131a029u64,
    ];
    proof {
        assert(r@ =~= spec_bn254_modulus_words());
        lemma_bn254_modulus_words_val();
    }
    r
}

/// The powers of 256 that bound the packed claim chunks and the field width.
proof fn lemma_pow256_31_32()
    ensures
        pow(256, 31) == 0x100000000000000000000000000000000000000000000000000000000000000,
        pow(256, 32) == 0x10000000000000000000000000000000000000000000000000000000000000000,
{
    reveal_with_fuel(pow, 33);
}

/// Every character is a decimal digit.
pub open spec fn is_digits(s: Seq<char>) -> bool {
    forall|i: int| 0 <= i < s.len() ==> '0' <= #[trigger] s[i] <= '9'
}

/// The value of a decimal digit string.
pub open spec fn dec_val(s: Seq<char>) -> nat
    decreases s.len(),
{
    if s.len() == 0 {
        0
    } else {
        (dec_val(s.drop_last()) * 10 + (s.last() as int - 48)) as nat
    }
}

/// The decimal digit character for a value below ten.
pub open spec fn digit_char(d: nat) -> char {
    (((48 + d) as u8) as char)
}

/// The minimal decimal digit string of a value: no leading zeros, and a
/// single zero digit for zero.
pub open spec fn dec_str(n: nat) -> Seq<char>
    decreases n,
{
    if n < 10 {
        seq![digit_char(n)]
    } else {
        dec_str(n / 10).push(digit_char(n % 10))
    }
}

/// The minimal decimal string of a value parses back to that value.
pub proof fn lemma_dec_str_val(n: nat)
    ensures
        dec_str(n).len() >= 1,
        is_digits(dec_str(n)),
        dec_val(dec_str(n)) == n,
    decreases n,
{
    if n < 10 {
        assert(dec_str(n) =~= seq![digit_char(n)]);
        assert(dec_str(n).drop_last() =~= Seq::<char>::empty());
        assert(dec_val(Seq::<char>::empty()) == 0);
        assert(digit_char(n) as int == 48 + n);
    } else {
        lemma_dec_str_val(n / 10);
        let pre = dec_str(n / 10);
        let c = digit_char(n % 10);
        assert(c as int == 48 + n % 10);
        assert(dec_str(n) =~= pre.push(c));
        assert(dec_str(n).drop_last() =~= pre);
        assert(dec_str(n).last() == c);
        assert(dec_val(dec_str(n)) == dec_val(pre) * 10 + (c as int - 48));
        vstd::arithmetic::div_mod::lemma_fundamental_div_mod(n as int, 10);
        assert forall|i: int| 0 <= i < dec_str(n).len() implies '0' <= #[trigger] dec_str(n)[i]
            <= '9' by {
            if i < pre.len() {
                assert(pre[i] == dec_str(n)[i]);
            }
        }
    }
}

/// The Poseidon hash over BN254 field elements, an opaque primitive.
pub uninterp spec fn poseidon_hash(inputs: Seq<nat>) -> nat;

/// The 32-byte BLAKE2b digest, an opaque primitive.
pub uninterp spec fn blake2b256_digest(bytes: Seq<u8>) -> Seq<u8>;

/// The unpadded URL-safe base64 text of a byte string, an opaque primitive.
pub uninterp spec fn base64url_of(bytes: Seq<u8>) -> Seq<char>;

/// Relies on `num_bigint::BigUint`'s decimal `FromStr` and `to_bytes_be`:
/// reads a digit string as the big-endian bytes of its value, minimal, with
/// no leading zero byte (a single zero byte for zero).
#[verifier::external_body]
fn dec_parse(s: &str) -> (r: Vec<u8>)
    requires
        s@.len() > 0,
        is_digits(s@),
    ensures
        be_bytes_nat(r@) == dec_val(s@),
        r@.len() >= 1,
        r@.len() > 1 ==> r@[0] != 0,
{
    let n = <num_bigint::BigUint as core::str::FromStr>::from_str(s).unwrap();
    n.to_bytes_be()
}

/// Relies on `num_bigint::BigUint::from_bytes_be` and `to_str_radix`: writes
/// a value as its minimal decimal digit string.
#[verifier::external_body]
fn dec_format(bytes: &Vec<u8>) -> (r: String)
    ensures
        r@ == dec_str(be_bytes_nat(bytes@)),
{
    num_bigint::BigUint::from_bytes_be(&bytes[..]).to_str_radix(10)
}

/// Relies on `num_bigint::BigUint::from_bytes_be`, its `%` remainder and
/// `to_bytes_be`: reduces a big-endian value by a nonzero big-endian
/// modulus, returning the minimal big-endian bytes of the remainder, with
/// no leading zero byte (a single zero byte for zero).
#[verifier::external_body]
fn biguint_mod_be(a: &Vec<u8>, m: &Vec<u8>) -> (r: Vec<u8>)
    requires
        be_bytes_nat(m@) > 0,
    ensures
        be_bytes_nat(r@) == be_bytes_nat(a@) % be_bytes_nat(m@),
        r@.len() >= 1,
        r@.len() > 1 ==> r@[0] != 0,
{
    let av = num_bigint::BigUint::from_bytes_be(&a[..]);
    let mv = num_bigint::BigUint::from_bytes_be(&m[..]);
    (av % mv).to_bytes_be()
}

/// The BN254 scalar modulus as a 32-byte big-endian buffer.
fn bn254_modulus_be_bytes() -> (r: Vec<u8>)
    ensures
        r@.len() == 32,
        be_bytes_nat(r@) == bn254_modulus(),
{
    let w = bn254_modulus_words();
    let le = crate::words::le_bytes_from_words(&w);
    reverse_bytes(&le)
}

/// A minimal big-endian buffer holding a value below the BN254 order fits
/// in 32 bytes.
proof fn lemma_minimal_be_len(s: Seq<u8>)
    requires
        s.len() >= 1,
        s.len() > 1 ==> s[0] != 0,
        be_bytes_nat(s) < bn254_modulus(),
    ensures
        s.len() <= 32,
{
    if s.len() > 32 {
        let rest = s.subrange(1, s.len() as int);
        assert(seq![s[0]] + rest =~= s);
        lemma_be_bytes_split(seq![s[0]], rest);
        lemma_be_bytes_single(seq![s[0]]);
        lemma_pow256_31_32();
        vstd::arithmetic::power::lemma_pow_increases(256, 32, rest.len());
        assert(be_bytes_nat(s) >= 1 * pow(256, rest.len())) by (nonlinear_arith)
            requires
                be_bytes_nat(s) == (s[0] as nat) * pow(256, rest.len()) + be_bytes_nat(rest),
                s[0] >= 1,
                pow(256, rest.len()) >= 0,
        ;
    }
}

/// Relies on `light_poseidon::Poseidon::<Fr>::new_circom` and
/// `hash_bytes_be`: the circom-compatible Poseidon hash over the BN254
/// scalar field.  The digest is a function of the inputs alone; with one to
/// twelve canonical 32-byte big-endian inputs no error path is reachable,
/// and the output is the 32-byte big-endian form of a field element.
#[verifier::external_body]
fn poseidon_hash_bytes(inputs: &Vec<Vec<u8>>) -> (r: Vec<u8>)
    requires
        1 <= inputs@.len() <= 12,
        forall|i: int|
            0 <= i < inputs@.len() ==> (#[trigger] inputs@[i])@.len() == 32 && be_bytes_nat(
                inputs@[i]@,
            ) < bn254_modulus(),
    ensures
        r@.len() == 32,
        be_bytes_nat(r@) < bn254_modulus(),
        be_bytes_nat(r@) == poseidon_hash(inputs@.map_values(|v: Vec<u8>| be_bytes_nat(v@))),
{
    let mut hasher = light_poseidon::Poseidon::<ark_bn254::Fr>::new_circom(inputs.len()).unwrap();
    let refs: Vec<&[u8]> = inputs.iter().map(|v| &v[..]).collect();
    let out = light_poseidon::PoseidonBytesHasher::hash_bytes_be(&mut hasher, &refs[..]).unwrap();
    out.to_vec()
}

/// Relies on `blake2b_simd`: the BLAKE2b digest with a 32-byte output, a
/// function of the input bytes alone.
#[verifier::external_body]
fn blake2b256(bytes: &Vec<u8>) -> (r: Vec<u8>)
    ensures
        r@.len() == 32,
        r@ == blake2b256_digest(bytes@),
{
    blake2b_simd::Params::new().hash_length(32).hash(&bytes[..]).as_bytes().to_vec()
}

/// Relies on `base64ct::Base64UrlUnpadded`'s `encoded_len` and `encode`:
/// unpadded URL-safe
/// base64 text, a function of the input bytes alone and four characters for
/// every three bytes, rounded up.
#[verifier::external_body]
fn base64url_encode(bytes: &Vec<u8>) -> (r: String)
    ensures
        r@ == base64url_of(bytes@),
        r@.len() == (bytes@.len() * 4 + 2) / 3,
{
    let mut dst = vec![0u8; <base64ct::Base64UrlUnpadded as base64ct::Encoding>::encoded_len(&bytes[..])];
    let s = <base64ct::Base64UrlUnpadded as base64ct::Encoding>::encode(&bytes[..], &mut dst).unwrap();
    s.to_owned()
}

/// A vector of `n` zero bytes.
fn zero_bytes(n: usize) -> (r: Vec<u8>)
    ensures
        r@.len() == n,
        forall|i: int| 0 <= i < n ==> r@[i] == 0,
{
    let mut r: Vec<u8> = Vec::new();
    let mut i: usize = 0;
    while i < n
        invariant
            i <= n,
            r@.len() == i,
            forall|k: int| 0 <= k < i ==> r@[k] == 0,
        decreases n - i,
    {
        r.push(0u8);
        i = i + 1;
    }
    r
}

/// Pads a big-endian byte string on the left with zero bytes to a fixed
/// width, preserving its value.
fn pad_be_left(bytes: &Vec<u8>, width: usize) -> (r: Vec<u8>)
    requires
        bytes@.len() <= width,
    ensures
        r@.len() == width,
        be_bytes_nat(r@) == be_bytes_nat(bytes@),
{
    let mut r = zero_bytes(width - bytes.len());
    let mut tail = bytes.clone();
    let ghost zeros = r@;
    r.append(&mut tail);
    proof {
        assert(r@ =~= zeros + bytes@);
        lemma_be_bytes_split(zeros, bytes@);
        lemma_be_bytes_nat_zero(zeros);
        vstd::arithmetic::mul::lemma_mul_basics(pow(256, bytes@.len()));
        assert(be_bytes_nat(zeros) == 0);
        assert(be_bytes_nat(r@) == 0 * pow(256, bytes@.len()) + be_bytes_nat(bytes@));
    }
    r
}

/// A canonical element of the BN254 scalar field, held as its 32-byte
/// big-endian representative.
#[derive(Clone, Debug, PartialEq, Eq)]
pub struct Bn254FrElement {
    pub bytes: Vec<u8>,
}

impl Bn254FrElement {
    /// The residue this element denotes.
    pub open spec fn val(self) -> nat {
        be_bytes_nat(self.bytes@)
    }

    pub open spec fn wf(self) -> bool {
        self.bytes@.len() == 32 && self.val() < bn254_modulus()
    }

    /// Parses a canonical decimal string: nonempty, digits only, value below
    /// the field order.
    pub fn from_str(s: &str) -> (r: Result<Bn254FrElement, CryptoError>)
        ensures
            r.is_ok() <==> s@.len() > 0 && is_digits(s@) && dec_val(s@) < bn254_modulus(),
            r.is_ok() ==> r.unwrap().wf() && r.unwrap().val() == dec_val(s@),
    {
        proof {
            broadcast use vstd::string::is_ascii_spec_bytes;

        }
        if !s.is_ascii() {
            proof {
                assert(!vstd::utf8::is_ascii_chars(s@));
                if is_digits(s@) {
                    assert forall|i: int| 0 <= i < s@.len() implies '\0' <= #[trigger] s@[i]
                        <= '\u{7f}' by {
                        assert('0' <= s@[i] <= '9');
                    }
                    assert(false);
                }
            }
            return Err(CryptoError::InvalidInput);
        }
        let bytes = s.as_bytes_vec();
        proof {
            vstd::utf8::is_ascii_chars_nat_bound(s@);
        }
        if bytes.len() == 0 {
            return Err(CryptoError::InvalidInput);
        }
        let mut i: usize = 0;
        while i < bytes.len()
            invariant
                i <= bytes@.len(),
                bytes@ == s.spec_bytes(),
                vstd::utf8::is_ascii_chars(s@),
                bytes@ =~= Seq::new(s@.len(), |j: int| s@[j] as u8),
                forall|k: int| 0 <= k < s@.len() ==> (#[trigger] (s@[k] as nat)) < 128,
                forall|k: int| 0 <= k < i ==> '0' <= #[trigger] s@[k] <= '9',
            decreases bytes@.len() - i,
        {
            let b = bytes[i];
            if b < 48 || b > 57 {
                proof {
                    assert(bytes@[i as int] == s@[i as int] as u8);
                    assert(!('0' <= s@[i as int] <= '9'));
                }
                return Err(CryptoError::InvalidInput);
            }
            proof {
                assert(bytes@[i as int] == s@[i as int] as u8);
                assert('0' <= s@[i as int] <= '9');
            }
            i = i + 1;
        }
        let be = dec_parse(s);
        if be.len() > 32 {
            proof {
                let rest = be@.subrange(1, be@.len() as int);
                assert(seq![be@[0]] + rest =~= be@);
                lemma_be_bytes_split(seq![be@[0]], rest);
                lemma_be_bytes_single(seq![be@[0]]);
                lemma_pow256_31_32();
                vstd::arithmetic::power::lemma_pow_increases(256, 32, rest.len());
                assert(be_bytes_nat(be@) >= 1 * pow(256, rest.len())) by (nonlinear_arith)
                    requires
                        be_bytes_nat(be@) == (be@[0] as nat) * pow(256, rest.len()) + be_bytes_nat(
                            rest,
                        ),
                        be@[0] >= 1,
                        pow(256, rest.len()) >= 0,
                ;
            }
            return Err(CryptoError::InvalidInput);
        }
        let padded = pad_be_left(&be, 32);
        let le = reverse_bytes(&padded);
        proof {
            lemma_reverse_swaps_endianness(le@);
            assert(le@.reverse() =~= padded@);
        }
        let w = words_from_le_bytes(&le);
        let m = bn254_modulus_words();
        if big_lt(&w, &m) {
            Ok(Bn254FrElement { bytes: padded })
        } else {
            Err(CryptoError::InvalidInput)
        }
    }

    /// The 32-byte big-endian representative, as the address digest consumes
    /// it.
    pub fn padded(&self) -> (r: Vec<u8>)
        requires
            self.wf(),
        ensures
            r@ == self.bytes@,
    {
        self.bytes.clone()
    }

    /// The canonical decimal string of this element.
    pub fn to_decimal_string(&self) -> (r: String)
        requires
            self.wf(),
        ensures
            r@ == dec_str(self.val()),
    {
        dec_format(&self.bytes)
    }
}

/// Splits an ephemeral public key buffer (flag byte followed by the key
/// bytes) into two field elements: everything but the last sixteen bytes,
/// and the last sixteen bytes, each read big-endian and reduced modulo the
/// field order.  The split never fails.
pub fn split_to_two_frs(eph_pk_bytes: &Vec<u8>) -> (r: Result<
    (Bn254FrElement, Bn254FrElement),
    CryptoError,
>)
    requires
        eph_pk_bytes@.len() >= 16,
    ensures
        r.is_ok(),
        r.unwrap().0.wf(),
        r.unwrap().1.wf(),
        r.unwrap().0.val() == be_bytes_nat(
            eph_pk_bytes@.subrange(0, eph_pk_bytes@.len() - 16),
        ) % bn254_modulus(),
        r.unwrap().1.val() == be_bytes_nat(
            eph_pk_bytes@.subrange(eph_pk_bytes@.len() - 16, eph_pk_bytes@.len() as int),
        ) % bn254_modulus(),
{
    let n = eph_pk_bytes.len();
    let first_half = sub_bytes(eph_pk_bytes, 0, n - 16);
    let second_half = sub_bytes(eph_pk_bytes, n - 16, n);
    let m = bn254_modulus_be_bytes();
    let first_red = biguint_mod_be(&first_half, &m);
    let second_red = biguint_mod_be(&second_half, &m);
    proof {
        vstd::arithmetic::div_mod::lemma_mod_bound(
            be_bytes_nat(first_half@) as int,
            bn254_modulus() as int,
        );
        vstd::arithmetic::div_mod::lemma_mod_bound(
            be_bytes_nat(second_half@) as int,
            bn254_modulus() as int,
        );
        lemma_minimal_be_len(first_red@);
        lemma_minimal_be_len(second_red@);
    }
    let first = Bn254FrElement { bytes: pad_be_left(&first_red, 32) };
    let second = Bn254FrElement { bytes: pad_be_left(&second_red, 32) };
    Ok((first, second))
}


/// The ASCII codes of a claim string, zero-padded to the claim's length
/// bound.
pub open spec fn pad_ascii(s: Seq<char>, max: nat) -> Seq<u8> {
    Seq::new(max, |i: int| if i < s.len() { (s[i] as u8) } else { 0u8 })
}

/// Splits a padded byte string into 31-byte groups read big-endian, the
/// final group taking the remainder.  Each group fits a BN254 field element.
pub open spec fn pack_chunks(p: Seq<u8>) -> Seq<nat>
    decreases p.len(),
{
    if p.len() == 0 {
        Seq::<nat>::empty()
    } else if p.len() <= 31 {
        seq![be_bytes_nat(p)]
    } else {
        seq![be_bytes_nat(p.take(31))] + pack_chunks(p.skip(31))
    }
}

/// The field element a bounded ASCII claim string hashes to: its padded
/// codes packed into field elements and passed through the Poseidon hash.
pub open spec fn ascii_claim_hash(s: Seq<char>, max: nat) -> nat {
    poseidon_hash(pack_chunks(pad_ascii(s, max)))
}

/// The big-endian byte string of a value, written with a fixed width.
pub open spec fn be_bytes_of(n: nat, len: nat) -> Seq<u8>
    decreases len,
{
    if len == 0 {
        Seq::<u8>::empty()
    } else {
        be_bytes_of(n / 256, (len - 1) as nat).push((n % 256) as u8)
    }
}

/// A value below the width bound reads back from its fixed-width big-endian
/// byte string.
pub proof fn lemma_be_bytes_of_val(n: nat, len: nat)
    requires
        n < pow(256, len),
    ensures
        be_bytes_of(n, len).len() == len,
        be_bytes_nat(be_bytes_of(n, len)) == n,
    decreases len,
{
    vstd::arithmetic::power::lemma_pow1(256);
    if len == 0 {
        assert(pow(256, 0) == 1) by {
            reveal_with_fuel(pow, 1);
        }
        assert(be_bytes_nat(Seq::<u8>::empty()) == 0) by {
            crate::words::lemma_be_bytes_nat_zero(Seq::<u8>::empty());
        }
    } else {
        vstd::arithmetic::power::lemma_pow_adds(256, (len - 1) as nat, 1);
        vstd::arithmetic::power::lemma_pow_positive(256, (len - 1) as nat);
        assert(n / 256 < pow(256, (len - 1) as nat)) by (nonlinear_arith)
            requires
                n < pow(256, (len - 1) as nat) * 256,
                pow(256, (len - 1) as nat) > 0,
        ;
        lemma_be_bytes_of_val(n / 256, (len - 1) as nat);
        let pre = be_bytes_of(n / 256, (len - 1) as nat);
        let d = ((n % 256) as u8);
        assert(pre.push(d) =~= pre + seq![d]);
        lemma_be_bytes_split(pre, seq![d]);
        lemma_be_bytes_single(seq![d]);
        vstd::arithmetic::div_mod::lemma_fundamental_div_mod(n as int, 256);
    }
}

/// Hashes a bounded ASCII string to a BN254 field element: the character
/// codes are zero-padded to `max_size`, packed big-endian into 31-byte
/// groups, and hashed.  A longer or non-ASCII string is rejected.
pub fn hash_ascii_str_to_field(s: &str, max_size: u8) -> (r: Result<Bn254FrElement, CryptoError>)
    requires
        max_size >= 1,
    ensures
        r.is_ok() <==> vstd::utf8::is_ascii_chars(s@) && s@.len() <= max_size,
        r.is_ok() ==> r.unwrap().wf() && r.unwrap().val() == ascii_claim_hash(
            s@,
            max_size as nat,
        ),
{
    proof {
        broadcast use vstd::string::is_ascii_spec_bytes;

    }
    if !s.is_ascii() {
        return Err(CryptoError::InvalidInput);
    }
    let bytes = s.as_bytes_vec();
    if bytes.len() > max_size as usize {
        return Err(CryptoError::InputTooLong(max_size as usize));
    }
    let mut padded = bytes;
    let mut tailz = zero_bytes(max_size as usize - padded.len());
    padded.append(&mut tailz);
    proof {
        assert(padded@ =~= pad_ascii(s@, max_size as nat));
    }
    let ghost whole = padded@;
    let mut inputs: Vec<Vec<u8>> = Vec::new();
    let ghost mut vals: Seq<nat> = Seq::empty();
    let mut i: usize = 0;
    proof {
        assert(whole.skip(0) =~= whole);
    }
    while i < padded.len()
        invariant
            padded@ == whole,
            1 <= whole.len() <= 255,
            i == 31 * inputs@.len(),
            i <= whole.len() + 30,
            vals.len() == inputs@.len(),
            forall|k: int|
                0 <= k < inputs@.len() ==> (#[trigger] inputs@[k])@.len() == 32 && be_bytes_nat(
                    inputs@[k]@,
                ) == vals[k] && vals[k] < bn254_modulus(),
            i <= whole.len() ==> vals + pack_chunks(whole.skip(i as int)) =~= pack_chunks(whole),
            i > whole.len() ==> vals =~= pack_chunks(whole),
        decreases whole.len() + 31 - i,
    {
        let end = if i + 31 <= padded.len() {
            i + 31
        } else {
            padded.len()
        };
        let chunk = sub_bytes(&padded, i, end);
        let chunk32 = pad_be_left(&chunk, 32);
        proof {
            lemma_be_bytes_nat_bound(chunk@);
            lemma_pow256_31_32();
            vstd::arithmetic::power::lemma_pow_increases(256, chunk@.len(), 31);
            let rest = whole.skip(i as int);
            if rest.len() <= 31 {
                assert(rest =~= chunk@);
            } else {
                assert(rest.take(31) =~= chunk@);
                assert(rest.skip(31) =~= whole.skip(i as int + 31));
            }
        }
        inputs.push(chunk32);
        proof {
            vals = vals.push(be_bytes_nat(chunk32@));
        }
        i = i + 31;
    }
    proof {
        assert(inputs@.len() >= 1);
        assert(31 * inputs@.len() <= whole.len() + 30);
        assert(inputs@.len() <= 12) by (nonlinear_arith)
            requires
                31 * inputs@.len() <= 285,
        ;
        assert(inputs@.map_values(|v: Vec<u8>| be_bytes_nat(v@)) =~= vals);
    }
    let out = poseidon_hash_bytes(&inputs);
    Ok(Bn254FrElement { bytes: out })
}

/// Derives the address seed from the Poseidon hash of the salt (as a
/// decimal string) and the key-claim name, value and audience strings.  The
/// claim strings are bounded ASCII; the result is the seed's canonical
/// decimal string.
pub fn gen_address_seed_with_salt_hash(salt_hash: &str, name: &str, value: &str, aud: &str) -> (r:
    Result<String, CryptoError>)
    ensures
        r.is_ok() <==> salt_hash@.len() > 0 && is_digits(salt_hash@) && dec_val(salt_hash@)
            < bn254_modulus() && vstd::utf8::is_ascii_chars(name@) && name@.len() <= 32
            && vstd::utf8::is_ascii_chars(value@) && value@.len() <= 115
            && vstd::utf8::is_ascii_chars(aud@) && aud@.len() <= 145,
        r.is_ok() ==> r.unwrap()@ == dec_str(
            poseidon_hash(
                seq![
                    ascii_claim_hash(name@, 32),
                    ascii_claim_hash(value@, 115),
                    ascii_claim_hash(aud@, 145),
                    dec_val(salt_hash@),
                ],
            ),
        ),
{
    let h1 = match hash_ascii_str_to_field(name, 32) {
        Ok(v) => v,
        Err(e) => {
            return Err(e);
        },
    };
    let h2 = match hash_ascii_str_to_field(value, 115) {
        Ok(v) => v,
        Err(e) => {
            return Err(e);
        },
    };
    let h3 = match hash_ascii_str_to_field(aud, 145) {
        Ok(v) => v,
        Err(e) => {
            return Err(e);
        },
    };
    let h4 = match Bn254FrElement::from_str(salt_hash) {
        Ok(v) => v,
        Err(e) => {
            return Err(e);
        },
    };
    let mut inputs: Vec<Vec<u8>> = Vec::new();
    inputs.push(h1.padded());
    inputs.push(h2.padded());
    inputs.push(h3.padded());
    inputs.push(h4.padded());
    proof {
        assert(inputs@.map_values(|v: Vec<u8>| be_bytes_nat(v@)) =~= seq![
            ascii_claim_hash(name@, 32),
            ascii_claim_hash(value@, 115),
            ascii_claim_hash(aud@, 145),
            dec_val(salt_hash@),
        ]);
    }
    let out = poseidon_hash_bytes(&inputs);
    Ok(dec_format(&out))
}

/// Derives the address seed from the user's salt and the key-claim name,
/// value and audience: the salt is parsed as a canonical decimal string,
/// hashed on its own, and the seed is derived from that hash.
pub fn gen_address_seed(salt: &str, name: &str, value: &str, aud: &str) -> (r: Result<
    String,
    CryptoError,
>)
    ensures
        r.is_ok() <==> salt@.len() > 0 && is_digits(salt@) && dec_val(salt@) < bn254_modulus()
            && vstd::utf8::is_ascii_chars(name@) && name@.len() <= 32
            && vstd::utf8::is_ascii_chars(value@) && value@.len() <= 115
            && vstd::utf8::is_ascii_chars(aud@) && aud@.len() <= 145,
        r.is_ok() ==> r.unwrap()@ == dec_str(
            poseidon_hash(
                seq![
                    ascii_claim_hash(name@, 32),
                    ascii_claim_hash(value@, 115),
                    ascii_claim_hash(aud@, 145),
                    poseidon_hash(seq![dec_val(salt@)]),
                ],
            ),
        ),
{
    let fe = match Bn254FrElement::from_str(salt) {
        Ok(v) => v,
        Err(e) => {
            return Err(e);
        },
    };
    let mut sin: Vec<Vec<u8>> = Vec::new();
    sin.push(fe.padded());
    proof {
        assert(sin@.map_values(|v: Vec<u8>| be_bytes_nat(v@)) =~= seq![dec_val(salt@)]);
    }
    let salt_hash_bytes = poseidon_hash_bytes(&sin);
    let salt_hash_str = dec_format(&salt_hash_bytes);
    proof {
        lemma_dec_str_val(be_bytes_nat(salt_hash_bytes@));
    }
    gen_address_seed_with_salt_hash(salt_hash_str.as_str(), name, value, aud)
}

/// The byte string the address digest is computed over: the authenticator
/// flag byte, the issuer's length (one byte, reduced), the issuer bytes and
/// the 32-byte address seed.
pub open spec fn address_preimage(address_seed: Seq<u8>, iss: Seq<u8>) -> Seq<u8> {
    seq![5u8] + seq![((iss.len() % 256) as u8)] + iss + address_seed
}

/// Derives the on-chain address for an address seed and issuer: the 32-byte
/// BLAKE2b digest of the flagged, length-prefixed issuer and seed bytes.
pub fn get_zk_login_address(address_seed: &Bn254FrElement, iss: &str) -> (r: Result<
    Vec<u8>,
    CryptoError,
>)
    requires
        address_seed.wf(),
    ensures
        r.is_ok(),
        r.unwrap()@.len() == 32,
        r.unwrap()@ == blake2b256_digest(address_preimage(address_seed.bytes@, iss.spec_bytes())),
{
    let mut pre: Vec<u8> = Vec::new();
    pre.push(5u8);
    let mut issb = iss.as_bytes_vec();
    let lenb: u8 = (issb.len() % 256) as u8;
    pre.push(lenb);
    pre.append(&mut issb);
    let mut seedb = address_seed.padded();
    pre.append(&mut seedb);
    proof {
        assert(pre@ =~= address_preimage(address_seed.bytes@, iss.spec_bytes()));
    }
    Ok(blake2b256(&pre))
}

/// Derives the login nonce: the ephemeral public key is split into two
/// field elements, hashed with the epoch bound and the randomness, and the
/// low twenty bytes of the hash are base64url-encoded.
pub fn get_nonce(eph_pk_bytes: &Vec<u8>, max_epoch: u64, jwt_randomness: &str) -> (r: Result<
    String,
    CryptoError,
>)
    requires
        eph_pk_bytes@.len() >= 16,
    ensures
        r.is_ok() <==> jwt_randomness@.len() > 0 && is_digits(jwt_randomness@) && dec_val(
            jwt_randomness@,
        ) < bn254_modulus(),
        r.is_ok() ==> r.unwrap()@ == base64url_of(
            be_bytes_of(
                poseidon_hash(
                    seq![
                        be_bytes_nat(eph_pk_bytes@.subrange(0, eph_pk_bytes@.len() - 16))
                            % bn254_modulus(),
                        be_bytes_nat(
                            eph_pk_bytes@.subrange(
                                eph_pk_bytes@.len() - 16,
                                eph_pk_bytes@.len() as int,
                            ),
                        ) % bn254_modulus(),
                        max_epoch as nat,
                        dec_val(jwt_randomness@),
                    ],
                ),
                32,
            ).subrange(12, 32),
        ),
{
    let halves = match split_to_two_frs(eph_pk_bytes) {
        Ok(v) => v,
        Err(e) => {
            return Err(e);
        },
    };
    let jwt = match Bn254FrElement::from_str(jwt_randomness) {
        Ok(v) => v,
        Err(e) => {
            return Err(e);
        },
    };
    let epoch_words: Vec<u64> = vec![max_epoch];
    proof {
        crate::words::lemma_le_words_unfold(epoch_words@);
        crate::words::lemma_le_words_empty(epoch_words@.drop_first());
    }
    let epoch_le = crate::words::le_bytes_from_words(&epoch_words);
    let epoch_be = reverse_bytes(&epoch_le);
    proof {
        lemma_reverse_swaps_endianness(epoch_le@);
    }
    let epoch_padded = pad_be_left(&epoch_be, 32);
    let epoch_fe = Bn254FrElement { bytes: epoch_padded };
    let mut inputs: Vec<Vec<u8>> = Vec::new();
    inputs.push(halves.0.padded());
    inputs.push(halves.1.padded());
    inputs.push(epoch_fe.padded());
    inputs.push(jwt.padded());
    proof {
        assert(inputs@.map_values(|v: Vec<u8>| be_bytes_nat(v@)) =~= seq![
            be_bytes_nat(eph_pk_bytes@.subrange(0, eph_pk_bytes@.len() - 16)) % bn254_modulus(),
            be_bytes_nat(
                eph_pk_bytes@.subrange(eph_pk_bytes@.len() - 16, eph_pk_bytes@.len() as int),
            ) % bn254_modulus(),
            max_epoch as nat,
            dec_val(jwt_randomness@),
        ]);
    }
    let hash_bytes = poseidon_hash_bytes(&inputs);
    proof {
        lemma_pow256_31_32();
        lemma_be_bytes_of_val(be_bytes_nat(hash_bytes@), 32);
        crate::words::lemma_be_bytes_nat_injective(
            hash_bytes@,
            be_bytes_of(be_bytes_nat(hash_bytes@), 32),
        );
    }
    let truncated = sub_bytes(&hash_bytes, 12, 32);
    Ok(base64url_encode(&truncated))
}

/// A response from the salt service: the salt as a decimal string.
#[derive(Clone, Debug, PartialEq, Eq)]
pub struct GetSaltResponse {
    /// The salt in decimal string form.
    pub salt: String,
}

/// A response from the development token issuer: the issued JWT.
#[derive(Clone, Debug, PartialEq, Eq)]
pub struct TestIssuerJWTResponse {
    /// JWT token string.
    pub jwt: String,
}

} // verus!
