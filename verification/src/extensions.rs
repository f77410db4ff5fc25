//! Extension-field bridges for the degree-2, degree-6 and degree-12 tower
//! fields.  These are purely structural: each coordinate is converted
//! independently through the base-field bridge and the tuple is reassembled
//! in the same component order (`c0` first).  A bridge fails only by
//! propagating a coordinate-level failure.

use vstd::prelude::*;
use crate::fields::{
    BlsFq, BlstFp, base_modulus, bls_fq_to_blst_fp, blst_fp_to_bls_fq,
};

verus! {

/// Degree-2 extension element `c0 + c1*u` in the library-A byte form.
#[derive(Clone, Debug, PartialEq, Eq)]
pub struct BlsFq2 {
    pub c0: BlsFq,
    pub c1: BlsFq,
}

/// Degree-2 extension element in the library-B word form.
#[derive(Clone, Debug, PartialEq, Eq)]
pub struct BlstFp2 {
    pub c0: BlstFp,
    pub c1: BlstFp,
}

/// Degree-6 extension element, a triple of degree-2 elements, library-A form.
#[derive(Clone, Debug, PartialEq, Eq)]
pub struct BlsFq6 {
    pub c0: BlsFq2,
    pub c1: BlsFq2,
    pub c2: BlsFq2,
}

/// Degree-6 extension element in the library-B word form.
#[derive(Clone, Debug, PartialEq, Eq)]
pub struct BlstFp6 {
    pub c0: BlstFp2,
    pub c1: BlstFp2,
    pub c2: BlstFp2,
}

/// Degree-12 extension element, a pair of degree-6 elements, library-A form.
#[derive(Clone, Debug, PartialEq, Eq)]
pub struct BlsFq12 {
    pub c0: BlsFq6,
    pub c1: BlsFq6,
}

/// Degree-12 extension element in the library-B word form.
#[derive(Clone, Debug, PartialEq, Eq)]
pub struct BlstFp12 {
    pub c0: BlstFp6,
    pub c1: BlstFp6,
}

impl BlsFq2 {
    pub open spec fn wf(self) -> bool {
        self.c0.wf() && self.c1.wf()
    }
}

impl BlstFp2 {
    pub open spec fn wf(self) -> bool {
        self.c0.wf() && self.c1.wf()
    }

    /// Both coordinates below the field modulus.
    pub open spec fn canonical(self) -> bool {
        self.wf() && self.c0.val() < base_modulus() && self.c1.val() < base_modulus()
    }
}

impl BlsFq6 {
    pub open spec fn wf(self) -> bool {
        self.c0.wf() && self.c1.wf() && self.c2.wf()
    }
}

impl BlstFp6 {
    pub open spec fn wf(self) -> bool {
        self.c0.wf() && self.c1.wf() && self.c2.wf()
    }

    pub open spec fn canonical(self) -> bool {
        self.c0.canonical() && self.c1.canonical() && self.c2.canonical()
    }
}

impl BlsFq12 {
    pub open spec fn wf(self) -> bool {
        self.c0.wf() && self.c1.wf()
    }
}

impl BlstFp12 {
    pub open spec fn wf(self) -> bool {
        self.c0.wf() && self.c1.wf()
    }

    pub open spec fn canonical(self) -> bool {
        self.c0.canonical() && self.c1.canonical()
    }
}

/// Coordinate-wise residue agreement between the two degree-2 forms.
pub open spec fn fq2_matches(a: BlsFq2, b: BlstFp2) -> bool {
    a.c0.val() == b.c0.val() && a.c1.val() == b.c1.val()
}

/// Coordinate-wise residue agreement between the two degree-6 forms.
pub open spec fn fq6_matches(a: BlsFq6, b: BlstFp6) -> bool {
    fq2_matches(a.c0, b.c0) && fq2_matches(a.c1, b.c1) && fq2_matches(a.c2, b.c2)
}

/// Coordinate-wise residue agreement between the two degree-12 forms.
pub open spec fn fq12_matches(a: BlsFq12, b: BlstFp12) -> bool {
    fq6_matches(a.c0, b.c0) && fq6_matches(a.c1, b.c1)
}

/// Byte-level equality of two library-A degree-2 elements.
pub open spec fn fq2_same(a: BlsFq2, b: BlsFq2) -> bool {
    a.c0.bytes@ == b.c0.bytes@ && a.c1.bytes@ == b.c1.bytes@
}

/// Byte-level equality of two library-A degree-6 elements.
pub open spec fn fq6_same(a: BlsFq6, b: BlsFq6) -> bool {
    fq2_same(a.c0, b.c0) && fq2_same(a.c1, b.c1) && fq2_same(a.c2, b.c2)
}

/// Byte-level equality of two library-A degree-12 elements.
pub open spec fn fq12_same(a: BlsFq12, b: BlsFq12) -> bool {
    fq6_same(a.c0, b.c0) && fq6_same(a.c1, b.c1)
}

/// Converts a degree-2 element from library-A form to library-B form,
/// coordinate by coordinate.
pub fn bls_fq2_to_blst_fp2(f: &BlsFq2) -> (r: BlstFp2)
    requires
        f.wf(),
    ensures
        r.canonical(),
        fq2_matches(*f, r),
{
    BlstFp2 { c0: bls_fq_to_blst_fp(&f.c0), c1: bls_fq_to_blst_fp(&f.c1) }
}

/// Converts a degree-2 element from library-B form back to library-A form;
/// rejects any out-of-range coordinate.
pub fn blst_fp2_to_bls_fq2(f: &BlstFp2) -> (r: Option<BlsFq2>)
    requires
        f.wf(),
    ensures
        r.is_some() <==> f.canonical(),
        r.is_some() ==> r.unwrap().wf() && fq2_matches(r.unwrap(), *f),
{
    let c0 = blst_fp_to_bls_fq(&f.c0);
    let c1 = blst_fp_to_bls_fq(&f.c1);
    match (c0, c1) {
        (Some(c0), Some(c1)) => Some(BlsFq2 { c0, c1 }),
        _ => None,
    }
}

/// Converts a degree-6 element from library-A form to library-B form.
pub fn bls_fq6_to_blst_fp6(f: &BlsFq6) -> (r: BlstFp6)
    requires
        f.wf(),
    ensures
        r.canonical(),
        fq6_matches(*f, r),
{
    BlstFp6 {
        c0: bls_fq2_to_blst_fp2(&f.c0),
        c1: bls_fq2_to_blst_fp2(&f.c1),
        c2: bls_fq2_to_blst_fp2(&f.c2),
    }
}

/// Converts a degree-6 element from library-B form back to library-A form;
/// rejects any out-of-range coordinate.
pub fn blst_fp6_to_bls_fq6(f: &BlstFp6) -> (r: Option<BlsFq6>)
    requires
        f.wf(),
    ensures
        r.is_some() <==> f.canonical(),
        r.is_some() ==> r.unwrap().wf() && fq6_matches(r.unwrap(), *f),
{
    let c0 = blst_fp2_to_bls_fq2(&f.c0);
    let c1 = blst_fp2_to_bls_fq2(&f.c1);
    let c2 = blst_fp2_to_bls_fq2(&f.c2);
    match (c0, c1, c2) {
        (Some(c0), Some(c1), Some(c2)) => Some(BlsFq6 { c0, c1, c2 }),
        _ => None,
    }
}

/// Converts a degree-12 element from library-A form to library-B form.
pub fn bls_fq12_to_blst_fp12(f: &BlsFq12) -> (r: BlstFp12)
    requires
        f.wf(),
    ensures
        r.canonical(),
        fq12_matches(*f, r),
{
    BlstFp12 { c0: bls_fq6_to_blst_fp6(&f.c0), c1: bls_fq6_to_blst_fp6(&f.c1) }
}

/// Converts a degree-12 element from library-B form back to library-A form;
/// rejects any out-of-range coordinate.
pub fn blst_fp12_to_bls_fq12(f: &BlstFp12) -> (r: Option<BlsFq12>)
    requires
        f.wf(),
    ensures
        r.is_some() <==> f.canonical(),
        r.is_some() ==> r.unwrap().wf() && fq12_matches(r.unwrap(), *f),
{
    let c0 = blst_fp6_to_bls_fq6(&f.c0);
    let c1 = blst_fp6_to_bls_fq6(&f.c1);
    match (c0, c1) {
        (Some(c0), Some(c1)) => Some(BlsFq12 { c0, c1 }),
        _ => None,
    }
}

/// Law: the degree-2 bridge round-trips every well-formed element.
pub proof fn lemma_fq2_round_trip(x: BlsFq2, b: BlstFp2, x2: Option<BlsFq2>)
    requires
        x.wf(),
        b.canonical(),
        fq2_matches(x, b),
        x2.is_some() <==> b.canonical(),
        x2.is_some() ==> x2.unwrap().wf() && fq2_matches(x2.unwrap(), b),
    ensures
        x2.is_some(),
        fq2_same(x2.unwrap(), x),
{
    crate::words::lemma_le_bytes_nat_injective(x2.unwrap().c0.bytes@, x.c0.bytes@);
    crate::words::lemma_le_bytes_nat_injective(x2.unwrap().c1.bytes@, x.c1.bytes@);
}

/// Law: the degree-6 bridge round-trips every well-formed element.
pub proof fn lemma_fq6_round_trip(x: BlsFq6, b: BlstFp6, x2: Option<BlsFq6>)
    requires
        x.wf(),
        b.canonical(),
        fq6_matches(x, b),
        x2.is_some() <==> b.canonical(),
        x2.is_some() ==> x2.unwrap().wf() && fq6_matches(x2.unwrap(), b),
    ensures
        x2.is_some(),
        fq6_same(x2.unwrap(), x),
{
    let y = x2.unwrap();
    lemma_fq2_round_trip(x.c0, b.c0, Some(y.c0));
    lemma_fq2_round_trip(x.c1, b.c1, Some(y.c1));
    lemma_fq2_round_trip(x.c2, b.c2, Some(y.c2));
}

/// Law: the degree-12 bridge round-trips every well-formed element.
pub proof fn lemma_fq12_round_trip(x: BlsFq12, b: BlstFp12, x2: Option<BlsFq12>)
    requires
        x.wf(),
        b.canonical(),
        fq12_matches(x, b),
        x2.is_some() <==> b.canonical(),
        x2.is_some() ==> x2.unwrap().wf() && fq12_matches(x2.unwrap(), b),
    ensures
        x2.is_some(),
        fq12_same(x2.unwrap(), x),
{
    let y = x2.unwrap();
    lemma_fq6_round_trip(x.c0, b.c0, Some(y.c0));
    lemma_fq6_round_trip(x.c1, b.c1, Some(y.c1));
}

} // verus!
