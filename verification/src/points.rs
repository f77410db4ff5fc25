//! Affine point bridges for the G1 and G2 curve groups.
//!
//! A point is an `(x, y)` coordinate pair; by convention the all-zero
//! coordinate pair denotes the point at infinity, so no separate flag is
//! carried.  The bridges convert the coordinate field elements independently.
//!
//! At the real library boundary the word form must additionally be pushed
//! through library B's own uncompressed serializer and deserializer (a
//! "normalize" round trip) before downstream library-B consumers may see it:
//! constructing the native struct field by field does not apply the validity
//! masks that library B's deserializer enforces.  That step only touches the
//! opaque native representation, never the coordinate values bridged here,
//! and is performed by the unverified boundary layer together with the raw
//! struct conversion.

use vstd::prelude::*;
use crate::fields::{
    BlsFq, BlstFp, base_modulus, bls_fq_to_blst_fp, base_modulus_words,
};
use crate::extensions::{
    BlsFq2, BlstFp2, bls_fq2_to_blst_fp2, blst_fp2_to_bls_fq2, fq2_matches, fq2_same,
};
use crate::words::{
    le_bytes_from_words, big_mod, lemma_le_bytes_nat_injective,
    lemma_le_words_nat_injective,
};
use vstd::arithmetic::div_mod::lemma_small_mod;

verus! {

/// G1 affine point in the library-A byte form.
#[derive(Clone, Debug, PartialEq, Eq)]
pub struct BlsG1Affine {
    pub x: BlsFq,
    pub y: BlsFq,
}

/// G1 affine point in the library-B word form.
#[derive(Clone, Debug, PartialEq, Eq)]
pub struct BlstP1Affine {
    pub x: BlstFp,
    pub y: BlstFp,
}

/// G2 affine point in the library-A byte form.
#[derive(Clone, Debug, PartialEq, Eq)]
pub struct BlsG2Affine {
    pub x: BlsFq2,
    pub y: BlsFq2,
}

/// G2 affine point in the library-B word form.
#[derive(Clone, Debug, PartialEq, Eq)]
pub struct BlstP2Affine {
    pub x: BlstFp2,
    pub y: BlstFp2,
}

impl BlsG1Affine {
    pub open spec fn wf(self) -> bool {
        self.x.wf() && self.y.wf()
    }

    /// The all-zero coordinate pair denotes the point at infinity.
    pub open spec fn spec_is_identity(self) -> bool {
        self.x.val() == 0 && self.y.val() == 0
    }

    /// Constructs the point at infinity.
    pub fn identity() -> (r: Self)
        ensures
            r.wf(),
            r.spec_is_identity(),
    {
        let zero: Vec<u8> = vec![0u8; 48];
        proof {
            crate::words::lemma_le_bytes_nat_zero(zero@);
        }
        BlsG1Affine { x: BlsFq { bytes: zero.clone() }, y: BlsFq { bytes: zero } }
    }

    /// True exactly when this is the point at infinity.
    pub fn is_identity(&self) -> (r: bool)
        ensures
            r == self.spec_is_identity(),
    {
        crate::words::bytes_are_zero(&self.x.bytes) && crate::words::bytes_are_zero(&self.y.bytes)
    }
}

impl BlstP1Affine {
    pub open spec fn wf(self) -> bool {
        self.x.wf() && self.y.wf()
    }

    pub open spec fn canonical(self) -> bool {
        self.x.canonical() && self.y.canonical()
    }

    pub open spec fn spec_is_identity(self) -> bool {
        self.x.val() == 0 && self.y.val() == 0
    }
}

impl BlsG2Affine {
    pub open spec fn wf(self) -> bool {
        self.x.wf() && self.y.wf()
    }

    pub open spec fn spec_is_identity(self) -> bool {
        self.x.c0.val() == 0 && self.x.c1.val() == 0 && self.y.c0.val() == 0 && self.y.c1.val()
            == 0
    }

    /// Constructs the point at infinity.
    pub fn identity() -> (r: Self)
        ensures
            r.wf(),
            r.spec_is_identity(),
    {
        let zero: Vec<u8> = vec![0u8; 48];
        proof {
            crate::words::lemma_le_bytes_nat_zero(zero@);
        }
        BlsG2Affine {
            x: BlsFq2 { c0: BlsFq { bytes: zero.clone() }, c1: BlsFq { bytes: zero.clone() } },
            y: BlsFq2 { c0: BlsFq { bytes: zero.clone() }, c1: BlsFq { bytes: zero } },
        }
    }

    /// True exactly when this is the point at infinity.
    pub fn is_identity(&self) -> (r: bool)
        ensures
            r == self.spec_is_identity(),
    {
        crate::words::bytes_are_zero(&self.x.c0.bytes) && crate::words::bytes_are_zero(
            &self.x.c1.bytes,
        ) && crate::words::bytes_are_zero(&self.y.c0.bytes) && crate::words::bytes_are_zero(
            &self.y.c1.bytes,
        )
    }
}

impl BlstP2Affine {
    pub open spec fn wf(self) -> bool {
        self.x.wf() && self.y.wf()
    }

    pub open spec fn canonical(self) -> bool {
        self.x.canonical() && self.y.canonical()
    }

    pub open spec fn spec_is_identity(self) -> bool {
        self.x.c0.val() == 0 && self.x.c1.val() == 0 && self.y.c0.val() == 0 && self.y.c1.val()
            == 0
    }
}

/// Byte-level equality of two library-A G1 points.
pub open spec fn g1_same(a: BlsG1Affine, b: BlsG1Affine) -> bool {
    a.x.bytes@ == b.x.bytes@ && a.y.bytes@ == b.y.bytes@
}

/// Byte-level equality of two library-A G2 points.
pub open spec fn g2_same(a: BlsG2Affine, b: BlsG2Affine) -> bool {
    fq2_same(a.x, b.x) && fq2_same(a.y, b.y)
}

/// Converts a G1 point from library-A form to library-B form by converting
/// the coordinates independently.
pub fn bls_g1_affine_to_blst_g1_affine(pt: &BlsG1Affine) -> (r: BlstP1Affine)
    requires
        pt.wf(),
    ensures
        r.canonical(),
        r.x.val() == pt.x.val(),
        r.y.val() == pt.y.val(),
{
    BlstP1Affine { x: bls_fq_to_blst_fp(&pt.x), y: bls_fq_to_blst_fp(&pt.y) }
}

/// Converts a G1 point from library-B form back to library-A form.  The raw
/// coordinate words are read through library B's big-endian serialization and
/// reconstructed "modulo the field order", so any word form is accepted and
/// each coordinate is reduced.
pub fn blst_g1_affine_to_bls_g1_affine(pt: &BlstP1Affine) -> (r: BlsG1Affine)
    requires
        pt.wf(),
    ensures
        r.wf(),
        r.x.val() == pt.x.val() % base_modulus(),
        r.y.val() == pt.y.val() % base_modulus(),
{
    let m = base_modulus_words();
    let xr = big_mod(&pt.x.words, &m);
    let yr = big_mod(&pt.y.words, &m);
    BlsG1Affine {
        x: BlsFq { bytes: le_bytes_from_words(&xr) },
        y: BlsFq { bytes: le_bytes_from_words(&yr) },
    }
}

/// Converts a G2 point from library-A form to library-B form by converting
/// the coordinates independently.
pub fn bls_g2_affine_to_blst_g2_affine(pt: &BlsG2Affine) -> (r: BlstP2Affine)
    requires
        pt.wf(),
    ensures
        r.canonical(),
        fq2_matches(pt.x, r.x),
        fq2_matches(pt.y, r.y),
{
    BlstP2Affine { x: bls_fq2_to_blst_fp2(&pt.x), y: bls_fq2_to_blst_fp2(&pt.y) }
}

/// Converts a G2 point from library-B form back to library-A form; unlike
/// the G1 direction this path rejects an out-of-range coordinate.
pub fn blst_g2_affine_to_bls_g2_affine(pt: &BlstP2Affine) -> (r: Option<BlsG2Affine>)
    requires
        pt.wf(),
    ensures
        r.is_some() <==> pt.canonical(),
        r.is_some() ==> r.unwrap().wf() && fq2_matches(r.unwrap().x, pt.x) && fq2_matches(
            r.unwrap().y,
            pt.y,
        ),
{
    let x = blst_fp2_to_bls_fq2(&pt.x);
    let y = blst_fp2_to_bls_fq2(&pt.y);
    match (x, y) {
        (Some(x), Some(y)) => Some(BlsG2Affine { x, y }),
        _ => None,
    }
}

/// Law: bridging a G1 point to the library-B form and back returns the
/// original point, identity included.
pub proof fn lemma_g1_bridge_round_trip(p: BlsG1Affine, b: BlstP1Affine, p2: BlsG1Affine)
    requires
        p.wf(),
        b.canonical(),
        b.x.val() == p.x.val(),
        b.y.val() == p.y.val(),
        p2.wf(),
        p2.x.val() == b.x.val() % base_modulus(),
        p2.y.val() == b.y.val() % base_modulus(),
    ensures
        g1_same(p2, p),
{
    lemma_small_mod(p.x.val(), base_modulus());
    lemma_small_mod(p.y.val(), base_modulus());
    lemma_le_bytes_nat_injective(p2.x.bytes@, p.x.bytes@);
    lemma_le_bytes_nat_injective(p2.y.bytes@, p.y.bytes@);
}

/// Law: bridging a canonical library-B G1 point to library A and back
/// returns the original word form.
pub proof fn lemma_g1_bridge_round_trip_b(b: BlstP1Affine, p: BlsG1Affine, b2: BlstP1Affine)
    requires
        b.canonical(),
        p.wf(),
        p.x.val() == b.x.val() % base_modulus(),
        p.y.val() == b.y.val() % base_modulus(),
        b2.wf(),
        b2.x.val() == p.x.val(),
        b2.y.val() == p.y.val(),
    ensures
        b2.x.words@ == b.x.words@,
        b2.y.words@ == b.y.words@,
{
    lemma_small_mod(b.x.val(), base_modulus());
    lemma_small_mod(b.y.val(), base_modulus());
    lemma_le_words_nat_injective(b2.x.words@, b.x.words@);
    lemma_le_words_nat_injective(b2.y.words@, b.y.words@);
}

/// Law: bridging a G2 point to the library-B form and back succeeds and
/// returns the original point, identity included.
pub proof fn lemma_g2_bridge_round_trip(p: BlsG2Affine, b: BlstP2Affine, p2: Option<BlsG2Affine>)
    requires
        p.wf(),
        b.canonical(),
        fq2_matches(p.x, b.x),
        fq2_matches(p.y, b.y),
        p2.is_some() <==> b.canonical(),
        p2.is_some() ==> p2.unwrap().wf() && fq2_matches(p2.unwrap().x, b.x) && fq2_matches(
            p2.unwrap().y,
            b.y,
        ),
    ensures
        p2.is_some(),
        g2_same(p2.unwrap(), p),
{
    let q = p2.unwrap();
    lemma_le_bytes_nat_injective(q.x.c0.bytes@, p.x.c0.bytes@);
    lemma_le_bytes_nat_injective(q.x.c1.bytes@, p.x.c1.bytes@);
    lemma_le_bytes_nat_injective(q.y.c0.bytes@, p.y.c0.bytes@);
    lemma_le_bytes_nat_injective(q.y.c1.bytes@, p.y.c1.bytes@);
}

/// Law: bridging a canonical library-B G2 point to library A and back
/// returns the original word form.
pub proof fn lemma_g2_bridge_round_trip_b(b: BlstP2Affine, p: Option<BlsG2Affine>, b2: BlstP2Affine)
    requires
        b.canonical(),
        p.is_some() <==> b.canonical(),
        p.is_some() ==> p.unwrap().wf() && fq2_matches(p.unwrap().x, b.x) && fq2_matches(
            p.unwrap().y,
            b.y,
        ),
        b2.wf(),
        fq2_matches(p.unwrap().x, b2.x),
        fq2_matches(p.unwrap().y, b2.y),
    ensures
        b2.x.c0.words@ == b.x.c0.words@,
        b2.x.c1.words@ == b.x.c1.words@,
        b2.y.c0.words@ == b.y.c0.words@,
        b2.y.c1.words@ == b.y.c1.words@,
{
    lemma_le_words_nat_injective(b2.x.c0.words@, b.x.c0.words@);
    lemma_le_words_nat_injective(b2.x.c1.words@, b.x.c1.words@);
    lemma_le_words_nat_injective(b2.y.c0.words@, b.y.c0.words@);
    lemma_le_words_nat_injective(b2.y.c1.words@, b.y.c1.words@);
}

} // verus!
