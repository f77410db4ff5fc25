//! Canonical (Zcash-convention) codec for compressed G1 and G2 points.
//!
//! A compressed G1 point is 48 bytes, a compressed G2 point 96 bytes.  Bits
//! 7, 6 and 5 of byte 0 carry the compression, infinity and sign flags; the
//! remaining bits are the big-endian x-coordinate (for G2, the second tower
//! component first).  Only the compressed form is accepted on decode.  The
//! sign bit records whether the y-coordinate is lexicographically larger
//! than its negation and is set only for compressed finite points.

use vstd::prelude::*;
use crate::fields::{BlsFq, base_modulus, base_modulus_words};
use crate::extensions::BlsFq2;
use crate::points::{BlsG1Affine, BlsG2Affine};
use crate::words::{
    be_bytes_nat, le_bytes_nat, words_from_le_bytes, reverse_bytes, sub_bytes, big_lt, big_sub,
    words_are_zero, lemma_reverse_swaps_endianness, lemma_be_bytes_split, lemma_be_bytes_single,
    lemma_be_bytes_nat_zero,
};
use vstd::arithmetic::power::pow;

verus! {

/// The three flag bits carried in the top bits of a compressed encoding's
/// first byte.
#[derive(Clone, Copy, Debug, PartialEq, Eq, Structural)]
pub struct EncodingFlags {
    /// Bit 7: the encoding is the compressed form.
    pub is_compressed: bool,
    /// Bit 6: the encoding denotes the point at infinity.
    pub is_infinity: bool,
    /// Bit 5: the y-coordinate is the lexicographically larger square root.
    pub is_lexicographically_largest: bool,
}

/// The flags spelled by the top three bits of a byte.
pub open spec fn spec_flags_of_byte(b: u8) -> EncodingFlags {
    EncodingFlags {
        is_compressed: b & 0x80 == 0x80,
        is_infinity: b & 0x40 == 0x40,
        is_lexicographically_largest: b & 0x20 == 0x20,
    }
}

/// The byte mask that encoding a set of flags adds to byte 0.  The sign bit
/// is only ever set for a compressed, finite point.
pub open spec fn spec_flag_mask(f: EncodingFlags) -> u8 {
    (((if f.is_compressed {
        0x80int
    } else {
        0int
    }) + (if f.is_infinity {
        0x40int
    } else {
        0int
    }) + (if f.is_compressed && !f.is_infinity && f.is_lexicographically_largest {
        0x20int
    } else {
        0int
    })) as u8)
}

/// A compressed buffer with the three flag bits of byte 0 cleared.
pub open spec fn masked_payload(s: Seq<u8>) -> Seq<u8> {
    s.update(0, s[0] & 0x1f)
}

impl EncodingFlags {
    /// Reads the three flags from bit 7, bit 6 and bit 5 of `bytes[0]`.
    pub fn from_bytes(bytes: &Vec<u8>) -> (r: EncodingFlags)
        requires
            bytes@.len() >= 1,
        ensures
            r == spec_flags_of_byte(bytes@[0]),
    {
        let b = bytes[0];
        let r = EncodingFlags {
            is_compressed: ((b >> 7) & 1) == 1,
            is_infinity: ((b >> 6) & 1) == 1,
            is_lexicographically_largest: ((b >> 5) & 1) == 1,
        };
        proof {
            assert((((b >> 7) & 1) == 1) == (b & 0x80 == 0x80)) by (bit_vector);
            assert((((b >> 6) & 1) == 1) == (b & 0x40 == 0x40)) by (bit_vector);
            assert((((b >> 5) & 1) == 1) == (b & 0x20 == 0x20)) by (bit_vector);
        }
        r
    }

    /// Sets the flag bits in the top three bits of `bytes[0]`, leaving the
    /// lower five bits and all remaining bytes untouched.  The sign bit is
    /// written only for a compressed, finite point.
    pub fn encode_flags(&self, bytes: &mut Vec<u8>)
        requires
            old(bytes)@.len() >= 1,
        ensures
            final(bytes)@.len() == old(bytes)@.len(),
            final(bytes)@[0] == old(bytes)@[0] | spec_flag_mask(*self),
            forall|i: int| 1 <= i < final(bytes)@.len() ==> final(bytes)@[i] == old(bytes)@[i],
    {
        let mut m: u8 = 0;
        if self.is_compressed {
            m = m + 0x80;
        }
        if self.is_infinity {
            m = m + 0x40;
        }
        if self.is_compressed && !self.is_infinity && self.is_lexicographically_largest {
            m = m + 0x20;
        }
        let b0 = bytes[0];
        bytes.set(0, b0 | m);
    }
}

/// Negation in the base field: zero stays zero, anything else reflects about
/// the modulus.
pub open spec fn spec_fq_neg(a: nat) -> nat {
    if a == 0 {
        0
    } else {
        (base_modulus() - a) as nat
    }
}

/// Whether `y` is strictly greater than its field negation under the
/// canonical integer order.
pub open spec fn is_lex_largest_fq(y: nat) -> bool {
    y > spec_fq_neg(y)
}

/// Whether a degree-2 element `(y0, y1)` is strictly greater than its
/// negation, comparing the `c1` component first and then `c0`.
pub open spec fn is_lex_largest_fq2(y0: nat, y1: nat) -> bool {
    is_lex_largest_fq(y1) || (y1 == 0 && is_lex_largest_fq(y0))
}

/// A sign choice `greatest` agrees with a G1 y-coordinate: vacuous for the
/// self-negating root zero.
pub open spec fn g1_sign_matches(y: nat, greatest: bool) -> bool {
    y == 0 || greatest == is_lex_largest_fq(y)
}

/// A sign choice `greatest` agrees with a G2 y-coordinate.
pub open spec fn g2_sign_matches(y0: nat, y1: nat, greatest: bool) -> bool {
    (y0 == 0 && y1 == 0) || greatest == is_lex_largest_fq2(y0, y1)
}

/// The base-field modulus as an integer.
pub open spec fn p_int() -> int {
    base_modulus() as int
}

/// The G1 curve equation `y^2 = x^3 + 4` over the base field, on canonical
/// representatives.
pub open spec fn on_curve_g1(x: int, y: int) -> bool {
    0 <= x < p_int() && 0 <= y < p_int() && (y * y) % p_int() == (x * x * x + 4) % p_int()
}

/// First component of a degree-2 product, with `u^2 = -1`.
pub open spec fn fq2_mul_c0(a0: int, a1: int, b0: int, b1: int) -> int {
    (a0 * b0 - a1 * b1) % p_int()
}

/// Second component of a degree-2 product.
pub open spec fn fq2_mul_c1(a0: int, a1: int, b0: int, b1: int) -> int {
    (a0 * b1 + a1 * b0) % p_int()
}

/// The G2 curve equation `y^2 = x^3 + (4 + 4u)` over the degree-2 extension,
/// on canonical representatives.
pub open spec fn on_curve_g2(x0: int, x1: int, y0: int, y1: int) -> bool {
    let x2_0 = fq2_mul_c0(x0, x1, x0, x1);
    let x2_1 = fq2_mul_c1(x0, x1, x0, x1);
    let x3_0 = fq2_mul_c0(x2_0, x2_1, x0, x1);
    let x3_1 = fq2_mul_c1(x2_0, x2_1, x0, x1);
    0 <= x0 < p_int() && 0 <= x1 < p_int() && 0 <= y0 < p_int() && 0 <= y1 < p_int()
        && fq2_mul_c0(y0, y1, y0, y1) == (x3_0 + 4) % p_int() && fq2_mul_c1(y0, y1, y0, y1) == (
    x3_1 + 4) % p_int()
}

/// Relies on `ark_bls12_381::G1Affine::get_point_from_x` (the generic
/// short-Weierstrass implementation in ark-ec): given an x-coordinate it
/// solves the curve equation for y, returning the square root selected by
/// `greatest` under the canonical integer order, or nothing when x is not
/// the abscissa of a curve point.  The root zero is its own negation, so the
/// sign choice is vacuous there.
#[verifier::external_body]
fn g1_point_from_x(x: &BlsFq, greatest: bool) -> (r: Option<(BlsFq, BlsFq)>)
    requires
        x.wf(),
    ensures
        r.is_some() <==> exists|y: int| on_curve_g1(x.val() as int, y),
        r.is_some() ==> r.unwrap().0.bytes@ == x.bytes@ && r.unwrap().1.wf() && on_curve_g1(
            x.val() as int,
            r.unwrap().1.val() as int,
        ) && g1_sign_matches(r.unwrap().1.val(), greatest),
        forall|y: int|
            on_curve_g1(x.val() as int, y) && g1_sign_matches(y as nat, greatest) ==> r.is_some()
                && r.unwrap().1.val() == y,
{
    let fq = <ark_bls12_381::Fq as ark_ff::FromBytes>::read(&x.bytes[..]).ok()?;
    let pt = ark_bls12_381::G1Affine::get_point_from_x(fq, greatest)?;
    let mut yb = vec![0u8; 48];
    ark_serialize::CanonicalSerialize::serialize(&pt.y, &mut yb[..]).ok()?;
    Some((x.clone(), BlsFq { bytes: yb }))
}

/// Relies on `ark_bls12_381::G2Affine::get_point_from_x` (the same generic
/// implementation over the degree-2 extension field): solves the G2 curve
/// equation for y, selecting the root by `greatest` under the order that
/// compares the `c1` component first.  The extension-field square root it
/// rests on answers an argument whose `c1` component is zero with a
/// base-field square root alone, so a purely imaginary root (zero `c0`,
/// nonzero `c1`) is never found: recovery is promised only for roots
/// outside that family, and an x whose only roots lie in it is reported as
/// having none.
#[verifier::external_body]
fn g2_point_from_x(x: &BlsFq2, greatest: bool) -> (r: Option<(BlsFq2, BlsFq2)>)
    requires
        x.wf(),
    ensures
        r.is_some() <==> exists|y0: int, y1: int|
            (on_curve_g2(x.c0.val() as int, x.c1.val() as int, y0, y1) && (y0 != 0 || y1 == 0)),
        r.is_some() ==> r.unwrap().0.c0.bytes@ == x.c0.bytes@ && r.unwrap().0.c1.bytes@
            == x.c1.bytes@ && r.unwrap().1.wf() && on_curve_g2(
            x.c0.val() as int,
            x.c1.val() as int,
            r.unwrap().1.c0.val() as int,
            r.unwrap().1.c1.val() as int,
        ) && g2_sign_matches(r.unwrap().1.c0.val(), r.unwrap().1.c1.val(), greatest),
        forall|y0: int, y1: int|
            on_curve_g2(x.c0.val() as int, x.c1.val() as int, y0, y1) && g2_sign_matches(
                y0 as nat,
                y1 as nat,
                greatest,
            ) && (y0 != 0 || y1 == 0) ==> r.is_some() && r.unwrap().1.c0.val() == y0
                && r.unwrap().1.c1.val() == y1,
{
    let c0 = <ark_bls12_381::Fq as ark_ff::FromBytes>::read(&x.c0.bytes[..]).ok()?;
    let c1 = <ark_bls12_381::Fq as ark_ff::FromBytes>::read(&x.c1.bytes[..]).ok()?;
    let pt = ark_bls12_381::G2Affine::get_point_from_x(ark_bls12_381::Fq2::new(c0, c1), greatest)?;
    let mut b0 = vec![0u8; 48];
    let mut b1 = vec![0u8; 48];
    ark_serialize::CanonicalSerialize::serialize(&pt.y.c0, &mut b0[..]).ok()?;
    ark_serialize::CanonicalSerialize::serialize(&pt.y.c1, &mut b1[..]).ok()?;
    Some((x.clone(), BlsFq2 { c0: BlsFq { bytes: b0 }, c1: BlsFq { bytes: b1 } }))
}

/// Decides whether a base-field element is the lexicographically larger of
/// the two square roots, i.e. strictly greater than its negation.
pub fn fq_is_lex_largest(y: &BlsFq) -> (r: bool)
    requires
        y.wf(),
    ensures
        r == is_lex_largest_fq(y.val()),
{
    let yw = words_from_le_bytes(&y.bytes);
    if words_are_zero(&yw) {
        false
    } else {
        let m = base_modulus_words();
        let neg = big_sub(&m, &yw);
        big_lt(&neg, &yw)
    }
}

/// Decides whether a degree-2 element is strictly greater than its negation
/// under the order that compares the `c1` component first.
pub fn fq2_is_lex_largest(y: &BlsFq2) -> (r: bool)
    requires
        y.wf(),
    ensures
        r == is_lex_largest_fq2(y.c0.val(), y.c1.val()),
{
    let y1 = words_from_le_bytes(&y.c1.bytes);
    if words_are_zero(&y1) {
        fq_is_lex_largest(&y.c0)
    } else {
        let m = base_modulus_words();
        let neg = big_sub(&m, &y1);
        big_lt(&neg, &y1)
    }
}

/// Writes a base-field element as the 48 big-endian bytes of its canonical
/// representative, the payload form of the compressed encodings.
pub fn bls_fq_to_zcash_bytes(field: &BlsFq) -> (r: Vec<u8>)
    requires
        field.wf(),
    ensures
        r@.len() == 48,
        be_bytes_nat(r@) == field.val(),
{
    reverse_bytes(&field.bytes)
}

/// Reads 48 big-endian bytes back into a base-field element, rejecting a
/// value at or above the field modulus rather than reducing it.
pub fn bls_fq_from_zcash_bytes(bytes: &Vec<u8>) -> (r: Option<BlsFq>)
    requires
        bytes@.len() == 48,
    ensures
        r.is_some() <==> be_bytes_nat(bytes@) < base_modulus(),
        r.is_some() ==> r.unwrap().wf() && r.unwrap().val() == be_bytes_nat(bytes@),
{
    let le = reverse_bytes(bytes);
    proof {
        lemma_reverse_swaps_endianness(le@);
        assert(le@.reverse() =~= bytes@);
    }
    let w = words_from_le_bytes(&le);
    let m = base_modulus_words();
    if big_lt(&w, &m) {
        Some(BlsFq { bytes: le })
    } else {
        None
    }
}

/// The canonical 381-bit representative leaves the top three bits of the
/// leading big-endian byte clear.
proof fn lemma_be_lead_byte_small(s: Seq<u8>, bound: nat)
    requires
        s.len() == 48,
        be_bytes_nat(s) < bound,
        bound <= 0x200000000000000000000000000000000000000000000000000000000000000000000000000000000000000000000000,
    ensures
        s[0] < 0x20,
{
    let rest = s.subrange(1, 48);
    assert(seq![s[0]] + rest =~= s);
    lemma_be_bytes_split(seq![s[0]], rest);
    lemma_be_bytes_single(seq![s[0]]);
    assert(pow(256, 47) == 0x10000000000000000000000000000000000000000000000000000000000000000000000000000000000000000000000) by {
        reveal_with_fuel(pow, 48);
    }
    assert((s[0] as nat) * pow(256, 47) <= be_bytes_nat(s));
    assert(s[0] < 0x20) by (nonlinear_arith)
        requires
            (s[0] as nat) * 0x10000000000000000000000000000000000000000000000000000000000000000000000000000000000000000000000
                <= be_bytes_nat(s),
            be_bytes_nat(s)
                < 0x200000000000000000000000000000000000000000000000000000000000000000000000000000000000000000000000,
    ;
}

/// How the three flag masks act on a leading payload byte whose top three
/// bits are clear: the low five bits survive, and each flag bit reads back
/// exactly when its mask sets it.
proof fn lemma_flag_byte_bits(b0: u8)
    requires
        b0 < 0x20,
    ensures
        (b0 | 0xc0u8) & 0x1f == b0 && (b0 | 0xa0u8) & 0x1f == b0 && (b0 | 0x80u8) & 0x1f == b0,
        (b0 | 0xc0u8) & 0x80 == 0x80 && (b0 | 0xa0u8) & 0x80 == 0x80 && (b0 | 0x80u8) & 0x80
            == 0x80,
        (b0 | 0xc0u8) & 0x40 == 0x40 && (b0 | 0xa0u8) & 0x40 == 0 && (b0 | 0x80u8) & 0x40 == 0,
        (b0 | 0xc0u8) & 0x20 == 0 && (b0 | 0xa0u8) & 0x20 == 0x20 && (b0 | 0x80u8) & 0x20 == 0,
        0u8 | 0xc0u8 == 0xc0u8,
{
    assert(b0 < 0x20 ==> ((b0 | 0xc0u8) & 0x1f == b0 && (b0 | 0xa0u8) & 0x1f == b0 && (b0
        | 0x80u8) & 0x1f == b0)) by (bit_vector);
    assert(b0 < 0x20 ==> ((b0 | 0xc0u8) & 0x80 == 0x80 && (b0 | 0xa0u8) & 0x80 == 0x80 && (b0
        | 0x80u8) & 0x80 == 0x80)) by (bit_vector);
    assert(b0 < 0x20 ==> ((b0 | 0xc0u8) & 0x40 == 0x40 && (b0 | 0xa0u8) & 0x40 == 0 && (b0
        | 0x80u8) & 0x40 == 0)) by (bit_vector);
    assert(b0 < 0x20 ==> ((b0 | 0xc0u8) & 0x20 == 0 && (b0 | 0xa0u8) & 0x20 == 0x20 && (b0
        | 0x80u8) & 0x20 == 0)) by (bit_vector);
    assert(0u8 | 0xc0u8 == 0xc0u8) by (bit_vector);
}

/// Serializes a G1 affine point into its 48-byte compressed encoding:
/// big-endian x-coordinate plus the three flag bits.
pub fn bls_g1_affine_to_zcash_bytes(p: &BlsG1Affine) -> (r: Vec<u8>)
    requires
        p.wf(),
    ensures
        r@.len() == 48,
        be_bytes_nat(masked_payload(r@)) == p.x.val(),
        spec_flags_of_byte(r@[0]).is_compressed,
        spec_flags_of_byte(r@[0]).is_infinity == p.spec_is_identity(),
        spec_flags_of_byte(r@[0]).is_lexicographically_largest == (!p.spec_is_identity()
            && is_lex_largest_fq(p.y.val())),
        p.spec_is_identity() ==> r@[0] == 0xc0 && (forall|i: int| 1 <= i < 48 ==> r@[i] == 0),
{
    let mut out = bls_fq_to_zcash_bytes(&p.x);
    let ghost payload = out@;
    let inf = p.is_identity();
    let largest = if inf {
        false
    } else {
        fq_is_lex_largest(&p.y)
    };
    let flags = EncodingFlags {
        is_compressed: true,
        is_infinity: inf,
        is_lexicographically_largest: largest,
    };
    proof {
        lemma_be_lead_byte_small(out@, base_modulus());
    }
    flags.encode_flags(&mut out);
    proof {
        let b0 = payload[0];
        let m = spec_flag_mask(flags);
        assert(m == 0xc0 || m == 0xa0 || m == 0x80);
        lemma_flag_byte_bits(b0);
        assert(masked_payload(out@) =~= payload);
        if p.spec_is_identity() {
            lemma_be_bytes_nat_zero(payload);
            assert(b0 == 0);
        }
    }
    out
}

/// Deserializes a G1 affine point from its 48-byte compressed encoding.
/// Uncompressed input is rejected; an infinity flag short-circuits to the
/// identity point without inspecting the payload; otherwise the big-endian
/// x-coordinate is recovered and y is solved for under the sign bit.
pub fn bls_g1_affine_from_zcash_bytes(bytes: &Vec<u8>) -> (r: Option<BlsG1Affine>)
    requires
        bytes@.len() == 48,
    ensures
        !spec_flags_of_byte(bytes@[0]).is_compressed ==> r.is_none(),
        spec_flags_of_byte(bytes@[0]).is_compressed && spec_flags_of_byte(bytes@[0]).is_infinity
            ==> r.is_some() && r.unwrap().wf() && r.unwrap().spec_is_identity(),
        spec_flags_of_byte(bytes@[0]).is_compressed && !spec_flags_of_byte(bytes@[0]).is_infinity
            ==> (r.is_some() <==> exists|y: int|
            on_curve_g1(be_bytes_nat(masked_payload(bytes@)) as int, y)),
        spec_flags_of_byte(bytes@[0]).is_compressed && !spec_flags_of_byte(bytes@[0]).is_infinity
            && r.is_some() ==> r.unwrap().wf() && r.unwrap().x.val() == be_bytes_nat(
            masked_payload(bytes@),
        ) && on_curve_g1(
            be_bytes_nat(masked_payload(bytes@)) as int,
            r.unwrap().y.val() as int,
        ) && g1_sign_matches(
            r.unwrap().y.val(),
            spec_flags_of_byte(bytes@[0]).is_lexicographically_largest,
        ),
        spec_flags_of_byte(bytes@[0]).is_compressed && !spec_flags_of_byte(bytes@[0]).is_infinity
            ==> forall|y: int|
            on_curve_g1(be_bytes_nat(masked_payload(bytes@)) as int, y) && g1_sign_matches(
                y as nat,
                spec_flags_of_byte(bytes@[0]).is_lexicographically_largest,
            ) ==> r.is_some() && r.unwrap().y.val() == y,
{
    let flags = EncodingFlags::from_bytes(bytes);
    if !flags.is_compressed {
        return None;
    }
    if flags.is_infinity {
        return Some(BlsG1Affine::identity());
    }
    let mut tmp = sub_bytes(bytes, 0, 48);
    let b0 = tmp[0];
    tmp.set(0, b0 & 0x1f);
    proof {
        assert(tmp@ =~= masked_payload(bytes@));
    }
    let x = match bls_fq_from_zcash_bytes(&tmp) {
        Some(x) => x,
        None => {
            return None;
        },
    };
    match g1_point_from_x(&x, flags.is_lexicographically_largest) {
        Some(pt) => Some(BlsG1Affine { x: pt.0, y: pt.1 }),
        None => None,
    }
}

/// Serializes a G2 affine point into its 96-byte compressed encoding: the
/// second tower component of x big-endian in the first 48 bytes, the first
/// component in the next 48, plus the three flag bits.  The component order
/// is a fixed wire convention.
pub fn bls_g2_affine_to_zcash_bytes(p: &BlsG2Affine) -> (r: Vec<u8>)
    requires
        p.wf(),
    ensures
        r@.len() == 96,
        be_bytes_nat(masked_payload(r@.subrange(0, 48))) == p.x.c1.val(),
        be_bytes_nat(r@.subrange(48, 96)) == p.x.c0.val(),
        spec_flags_of_byte(r@[0]).is_compressed,
        spec_flags_of_byte(r@[0]).is_infinity == p.spec_is_identity(),
        spec_flags_of_byte(r@[0]).is_lexicographically_largest == (!p.spec_is_identity()
            && is_lex_largest_fq2(p.y.c0.val(), p.y.c1.val())),
        p.spec_is_identity() ==> r@[0] == 0xc0 && (forall|i: int| 1 <= i < 96 ==> r@[i] == 0),
{
    let mut out = bls_fq_to_zcash_bytes(&p.x.c1);
    let mut c0_bytes = bls_fq_to_zcash_bytes(&p.x.c0);
    let ghost c1_payload = out@;
    let ghost c0_payload = c0_bytes@;
    out.append(&mut c0_bytes);
    let inf = p.is_identity();
    let largest = if inf {
        false
    } else {
        fq2_is_lex_largest(&p.y)
    };
    let flags = EncodingFlags {
        is_compressed: true,
        is_infinity: inf,
        is_lexicographically_largest: largest,
    };
    proof {
        lemma_be_lead_byte_small(c1_payload, base_modulus());
    }
    flags.encode_flags(&mut out);
    proof {
        let b0 = c1_payload[0];
        let m = spec_flag_mask(flags);
        assert(m == 0xc0 || m == 0xa0 || m == 0x80);
        lemma_flag_byte_bits(b0);
        assert(masked_payload(out@.subrange(0, 48)) =~= c1_payload);
        assert(out@.subrange(48, 96) =~= c0_payload);
        if p.spec_is_identity() {
            lemma_be_bytes_nat_zero(c1_payload);
            lemma_be_bytes_nat_zero(c0_payload);
            assert(b0 == 0);
        }
    }
    out
}

/// Deserializes a G2 affine point from its 96-byte compressed encoding,
/// mirroring the G1 decoder: uncompressed input is rejected, infinity
/// short-circuits, and both tower components of x must be canonical.  The
/// y-recovery never finds a purely imaginary root (zero `c0`, nonzero
/// `c1`), so a point whose y-coordinate has that shape is not decodable;
/// the contract promises recovery only outside that family.
pub fn bls_g2_affine_from_zcash_bytes(bytes: &Vec<u8>) -> (r: Option<BlsG2Affine>)
    requires
        bytes@.len() == 96,
    ensures
        !spec_flags_of_byte(bytes@[0]).is_compressed ==> r.is_none(),
        spec_flags_of_byte(bytes@[0]).is_compressed && spec_flags_of_byte(bytes@[0]).is_infinity
            ==> r.is_some() && r.unwrap().wf() && r.unwrap().spec_is_identity(),
        spec_flags_of_byte(bytes@[0]).is_compressed && !spec_flags_of_byte(bytes@[0]).is_infinity
            ==> (r.is_some() <==> exists|y0: int, y1: int|
            on_curve_g2(
                be_bytes_nat(bytes@.subrange(48, 96)) as int,
                be_bytes_nat(masked_payload(bytes@.subrange(0, 48))) as int,
                y0,
                y1,
            ) && (y0 != 0 || y1 == 0)),
        spec_flags_of_byte(bytes@[0]).is_compressed && !spec_flags_of_byte(bytes@[0]).is_infinity
            && r.is_some() ==> r.unwrap().wf() && r.unwrap().x.c0.val() == be_bytes_nat(
            bytes@.subrange(48, 96),
        ) && r.unwrap().x.c1.val() == be_bytes_nat(masked_payload(bytes@.subrange(0, 48)))
            && on_curve_g2(
            be_bytes_nat(bytes@.subrange(48, 96)) as int,
            be_bytes_nat(masked_payload(bytes@.subrange(0, 48))) as int,
            r.unwrap().y.c0.val() as int,
            r.unwrap().y.c1.val() as int,
        ) && g2_sign_matches(
            r.unwrap().y.c0.val(),
            r.unwrap().y.c1.val(),
            spec_flags_of_byte(bytes@[0]).is_lexicographically_largest,
        ),
        spec_flags_of_byte(bytes@[0]).is_compressed && !spec_flags_of_byte(bytes@[0]).is_infinity
            ==> forall|y0: int, y1: int|
            on_curve_g2(
                be_bytes_nat(bytes@.subrange(48, 96)) as int,
                be_bytes_nat(masked_payload(bytes@.subrange(0, 48))) as int,
                y0,
                y1,
            ) && g2_sign_matches(
                y0 as nat,
                y1 as nat,
                spec_flags_of_byte(bytes@[0]).is_lexicographically_largest,
            ) && (y0 != 0 || y1 == 0) ==> r.is_some() && r.unwrap().y.c0.val() == y0
                && r.unwrap().y.c1.val() == y1,
{
    let flags = EncodingFlags::from_bytes(bytes);
    if !flags.is_compressed {
        return None;
    }
    if flags.is_infinity {
        return Some(BlsG2Affine::identity());
    }
    let mut tmp = sub_bytes(bytes, 0, 48);
    let b0 = tmp[0];
    tmp.set(0, b0 & 0x1f);
    proof {
        assert(tmp@ =~= masked_payload(bytes@.subrange(0, 48)));
    }
    let xc1 = match bls_fq_from_zcash_bytes(&tmp) {
        Some(x) => x,
        None => {
            return None;
        },
    };
    let lower = sub_bytes(bytes, 48, 96);
    let xc0 = match bls_fq_from_zcash_bytes(&lower) {
        Some(x) => x,
        None => {
            return None;
        },
    };
    let x = BlsFq2 { c0: xc0, c1: xc1 };
    match g2_point_from_x(&x, flags.is_lexicographically_largest) {
        Some(pt) => Some(BlsG2Affine { x: pt.0, y: pt.1 }),
        None => None,
    }
}

/// Law: decoding the compressed encoding of any valid G1 point (identity
/// included) succeeds and returns that point.  The hypotheses are exactly
/// what `bls_g1_affine_to_zcash_bytes` ensures of the encoding `enc` and
/// what `bls_g1_affine_from_zcash_bytes` ensures of the decoding `dec`.
pub proof fn lemma_g1_codec_round_trip(p: BlsG1Affine, enc: Seq<u8>, dec: Option<BlsG1Affine>)
    requires
        p.wf(),
        !p.spec_is_identity() ==> on_curve_g1(p.x.val() as int, p.y.val() as int),
        enc.len() == 48,
        be_bytes_nat(masked_payload(enc)) == p.x.val(),
        spec_flags_of_byte(enc[0]).is_compressed,
        spec_flags_of_byte(enc[0]).is_infinity == p.spec_is_identity(),
        spec_flags_of_byte(enc[0]).is_lexicographically_largest == (!p.spec_is_identity()
            && is_lex_largest_fq(p.y.val())),
        spec_flags_of_byte(enc[0]).is_compressed && spec_flags_of_byte(enc[0]).is_infinity
            ==> dec.is_some() && dec.unwrap().wf() && dec.unwrap().spec_is_identity(),
        spec_flags_of_byte(enc[0]).is_compressed && !spec_flags_of_byte(enc[0]).is_infinity
            && dec.is_some() ==> dec.unwrap().wf() && dec.unwrap().x.val() == be_bytes_nat(
            masked_payload(enc),
        ),
        spec_flags_of_byte(enc[0]).is_compressed && !spec_flags_of_byte(enc[0]).is_infinity
            ==> forall|y: int|
            on_curve_g1(be_bytes_nat(masked_payload(enc)) as int, y) && g1_sign_matches(
                y as nat,
                spec_flags_of_byte(enc[0]).is_lexicographically_largest,
            ) ==> dec.is_some() && dec.unwrap().y.val() == y,
    ensures
        dec.is_some(),
        dec.unwrap().wf(),
        crate::points::g1_same(dec.unwrap(), p),
{
    let fl = spec_flags_of_byte(enc[0]);
    if p.spec_is_identity() {
        let q = dec.unwrap();
        crate::words::lemma_le_bytes_nat_injective(q.x.bytes@, p.x.bytes@);
        crate::words::lemma_le_bytes_nat_injective(q.y.bytes@, p.y.bytes@);
    } else {
        assert(on_curve_g1(be_bytes_nat(masked_payload(enc)) as int, p.y.val() as int));
        assert(g1_sign_matches(p.y.val(), fl.is_lexicographically_largest));
        assert(dec.is_some() && dec.unwrap().y.val() == p.y.val());
        let q = dec.unwrap();
        crate::words::lemma_le_bytes_nat_injective(q.x.bytes@, p.x.bytes@);
        crate::words::lemma_le_bytes_nat_injective(q.y.bytes@, p.y.bytes@);
    }
}

/// Law: decoding the compressed encoding of a valid G2 point (identity
/// included) succeeds and returns that point, provided the point's
/// y-coordinate is not purely imaginary (zero `c0`, nonzero `c1`): the
/// decoder's y-recovery never finds a root of that shape, so those points
/// do not round-trip.  The hypotheses are exactly what
/// `bls_g2_affine_to_zcash_bytes` ensures of the encoding `enc` and what
/// `bls_g2_affine_from_zcash_bytes` ensures of the decoding `dec`.
pub proof fn lemma_g2_codec_round_trip(p: BlsG2Affine, enc: Seq<u8>, dec: Option<BlsG2Affine>)
    requires
        p.wf(),
        !p.spec_is_identity() ==> on_curve_g2(
            p.x.c0.val() as int,
            p.x.c1.val() as int,
            p.y.c0.val() as int,
            p.y.c1.val() as int,
        ),
        !(p.y.c0.val() == 0 && p.y.c1.val() != 0),
        enc.len() == 96,
        be_bytes_nat(masked_payload(enc.subrange(0, 48))) == p.x.c1.val(),
        be_bytes_nat(enc.subrange(48, 96)) == p.x.c0.val(),
        spec_flags_of_byte(enc[0]).is_compressed,
        spec_flags_of_byte(enc[0]).is_infinity == p.spec_is_identity(),
        spec_flags_of_byte(enc[0]).is_lexicographically_largest == (!p.spec_is_identity()
            && is_lex_largest_fq2(p.y.c0.val(), p.y.c1.val())),
        spec_flags_of_byte(enc[0]).is_compressed && spec_flags_of_byte(enc[0]).is_infinity
            ==> dec.is_some() && dec.unwrap().wf() && dec.unwrap().spec_is_identity(),
        spec_flags_of_byte(enc[0]).is_compressed && !spec_flags_of_byte(enc[0]).is_infinity
            && dec.is_some() ==> dec.unwrap().wf() && dec.unwrap().x.c0.val() == be_bytes_nat(
            enc.subrange(48, 96),
        ) && dec.unwrap().x.c1.val() == be_bytes_nat(masked_payload(enc.subrange(0, 48))),
        spec_flags_of_byte(enc[0]).is_compressed && !spec_flags_of_byte(enc[0]).is_infinity
            ==> forall|y0: int, y1: int|
            on_curve_g2(
                be_bytes_nat(enc.subrange(48, 96)) as int,
                be_bytes_nat(masked_payload(enc.subrange(0, 48))) as int,
                y0,
                y1,
            ) && g2_sign_matches(
                y0 as nat,
                y1 as nat,
                spec_flags_of_byte(enc[0]).is_lexicographically_largest,
            ) && (y0 != 0 || y1 == 0) ==> dec.is_some() && dec.unwrap().y.c0.val() == y0
                && dec.unwrap().y.c1.val() == y1,
    ensures
        dec.is_some(),
        dec.unwrap().wf(),
        crate::points::g2_same(dec.unwrap(), p),
{
    let fl = spec_flags_of_byte(enc[0]);
    if !p.spec_is_identity() {
        assert(on_curve_g2(
            be_bytes_nat(enc.subrange(48, 96)) as int,
            be_bytes_nat(masked_payload(enc.subrange(0, 48))) as int,
            p.y.c0.val() as int,
            p.y.c1.val() as int,
        ));
        assert(g2_sign_matches(p.y.c0.val(), p.y.c1.val(), fl.is_lexicographically_largest));
        assert(dec.is_some() && dec.unwrap().y.c0.val() == p.y.c0.val() && dec.unwrap().y.c1.val()
            == p.y.c1.val());
    }
    let q = dec.unwrap();
    crate::words::lemma_le_bytes_nat_injective(q.x.c0.bytes@, p.x.c0.bytes@);
    crate::words::lemma_le_bytes_nat_injective(q.x.c1.bytes@, p.x.c1.bytes@);
    crate::words::lemma_le_bytes_nat_injective(q.y.c0.bytes@, p.y.c0.bytes@);
    crate::words::lemma_le_bytes_nat_injective(q.y.c1.bytes@, p.y.c1.bytes@);
}

} // verus!
