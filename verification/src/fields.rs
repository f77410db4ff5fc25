//! Scalar-field and base-field bridges.
//!
//! Each field element exists in two boundary forms.  The "library A" form is
//! the canonical little-endian byte serialization that the general-purpose
//! algebra library reads and writes; the "library B" form is the native array
//! of little-endian 64-bit words that the pairing library exchanges at its
//! word-level interface.  Both denote the residue that their digits spell,
//! and every bridge preserves that residue exactly.
//!
//! The two fields deliberately differ on out-of-range input: the scalar
//! bridge reduces any 256-bit word form modulo the group order, while the
//! base-field bridge rejects a word form at or above the field modulus.

use vstd::prelude::*;
use crate::words::{
    le_bytes_nat, le_words_nat, u64s_from_bytes, words_from_le_bytes, le_bytes_from_words,
    big_lt, big_mod, lemma_le_words_unfold, lemma_le_words_empty, lemma_le_bytes_nat_injective,
};
use vstd::arithmetic::div_mod::lemma_small_mod;

verus! {

/// Order of the BLS12-381 scalar field (the curve group order).
pub open spec fn scalar_modulus() -> nat {
    0x73eda753299d7d483339d80809a1d80553bda402fffe5bfeffffffff00000001nat
}

/// Order of the BLS12-381 base field.
pub open spec fn base_modulus() -> nat {
    0x1a0111ea397fe69a4b1ba7b6434bacd764774b84f38512bf6730d2a0f6b0f6241eabfffeb153ffffb9feffffffffaaabnat
}

/// The scalar modulus, as four little-endian 64-bit words.
pub open spec fn spec_scalar_modulus_words() -> Seq<u64> {
    seq![
        0xffffffff00000001u64,
        0x53bda402fffe5bfeu64,
        0x3339d80809a1d805u64,
        0x73eda753299d7d48u64,
    ]
}

/// The base modulus, as six little-endian 64-bit words.
pub open spec fn spec_base_modulus_words() -> Seq<u64> {
    seq![
        0xb9feffffffffaaabu64,
        0x1eabfffeb153ffffu64,
        0x6730d2a0f6b0f624u64,
        0x64774b84f38512bfu64,
        0x4b1ba7b6434bacd7u64,
        0x1a0111ea397fe69au64,
    ]
}

pub proof fn lemma_scalar_modulus_words_val()
    ensures
        le_words_nat(spec_scalar_modulus_words()) == scalar_modulus(),
{
    let s = spec_scalar_modulus_words();
    lemma_le_words_unfold(s);
    lemma_le_words_unfold(s.drop_first());
    lemma_le_words_unfold(s.drop_first().drop_first());
    lemma_le_words_unfold(s.drop_first().drop_first().drop_first());
    lemma_le_words_empty(s.drop_first().drop_first().drop_first().drop_first());
}

pub proof fn lemma_base_modulus_words_val()
    ensures
        le_words_nat(spec_base_modulus_words()) == base_modulus(),
{
    let s = spec_base_modulus_words();
    lemma_le_words_unfold(s);
    lemma_le_words_unfold(s.drop_first());
    lemma_le_words_unfold(s.drop_first().drop_first());
    lemma_le_words_unfold(s.drop_first().drop_first().drop_first());
    lemma_le_words_unfold(s.drop_first().drop_first().drop_first().drop_first());
    lemma_le_words_unfold(s.drop_first().drop_first().drop_first().drop_first().drop_first());
    lemma_le_words_empty(
        s.drop_first().drop_first().drop_first().drop_first().drop_first().drop_first(),
    );
}

/// The scalar modulus as an executable word vector.
pub fn scalar_modulus_words() -> (r: Vec<u64>)
    ensures
        r@ =~= spec_scalar_modulus_words(),
        le_words_nat(r@) == scalar_modulus(),
{
    let r: Vec<u64> = vec![
        0xffffffff00000001u64,
        0x53bda402fffe5bfeu64,
        0x3339d80809a1d805u64,
        0x73eda753299d7d48u64,
    ];
    proof {
        assert(r@ =~= spec_scalar_modulus_words());
        lemma_scalar_modulus_words_val();
    }
    r
}

/// The base modulus as an executable word vector.
pub fn base_modulus_words() -> (r: Vec<u64>)
    ensures
        r@ =~= spec_base_modulus_words(),
        le_words_nat(r@) == base_modulus(),
{
    let r: Vec<u64> = vec![
        0xb9feffffffffaaabu64,
        0x1eabfffeb153ffffu64,
        0x6730d2a0f6b0f624u64,
        0x64774b84f38512bfu64,
        0x4b1ba7b6434bacd7u64,
        0x1a0111ea397fe69au64,
    ];
    proof {
        assert(r@ =~= spec_base_modulus_words());
        lemma_base_modulus_words_val();
    }
    r
}

/// Scalar field element in the library-A boundary form: the canonical
/// 32-byte little-endian serialization of a residue below the group order.
#[derive(Clone, Debug, PartialEq, Eq)]
pub struct BlsFr {
    pub bytes: Vec<u8>,
}

impl BlsFr {
    /// The residue this element denotes.
    pub open spec fn val(self) -> nat {
        le_bytes_nat(self.bytes@)
    }

    /// Canonical form: 32 bytes, value below the group order.
    pub open spec fn wf(self) -> bool {
        self.bytes@.len() == 32 && self.val() < scalar_modulus()
    }
}

/// Scalar field element in the library-B boundary form: four native 64-bit
/// words, little-endian word order.
#[derive(Clone, Debug, PartialEq, Eq)]
pub struct BlstFr {
    pub words: Vec<u64>,
}

impl BlstFr {
    /// The 256-bit value the words spell.
    pub open spec fn val(self) -> nat {
        le_words_nat(self.words@)
    }

    pub open spec fn wf(self) -> bool {
        self.words@.len() == 4
    }

    /// The word form that library B itself emits: value below the group order.
    pub open spec fn canonical(self) -> bool {
        self.wf() && self.val() < scalar_modulus()
    }
}

/// Base field element in the library-A boundary form: the canonical 48-byte
/// little-endian serialization of a residue below the field modulus.
#[derive(Clone, Debug, PartialEq, Eq)]
pub struct BlsFq {
    pub bytes: Vec<u8>,
}

impl BlsFq {
    pub open spec fn val(self) -> nat {
        le_bytes_nat(self.bytes@)
    }

    pub open spec fn wf(self) -> bool {
        self.bytes@.len() == 48 && self.val() < base_modulus()
    }
}

/// Base field element in the library-B boundary form: six native 64-bit
/// words, little-endian word order.
#[derive(Clone, Debug, PartialEq, Eq)]
pub struct BlstFp {
    pub words: Vec<u64>,
}

impl BlstFp {
    pub open spec fn val(self) -> nat {
        le_words_nat(self.words@)
    }

    pub open spec fn wf(self) -> bool {
        self.words@.len() == 6
    }

    /// The word form that library B itself emits: value below the modulus.
    pub open spec fn canonical(self) -> bool {
        self.wf() && self.val() < base_modulus()
    }
}

/// Converts a scalar field element from the library-A byte form to the
/// library-B word form: a pure repacking of the same residue.
pub fn bls_fr_to_blst_fr(fe: &BlsFr) -> (r: BlstFr)
    requires
        fe.wf(),
    ensures
        r.wf(),
        r.canonical(),
        r.val() == fe.val(),
{
    BlstFr { words: u64s_from_bytes(&fe.bytes) }
}

/// Converts a scalar field element from the library-B word form back to the
/// library-A byte form.  Any 256-bit word form is accepted: the value is
/// reduced modulo the group order, never rejected.
pub fn blst_fr_to_bls_fr(fe: &BlstFr) -> (r: BlsFr)
    requires
        fe.wf(),
    ensures
        r.wf(),
        r.val() == fe.val() % scalar_modulus(),
{
    let m = scalar_modulus_words();
    let reduced = big_mod(&fe.words, &m);
    BlsFr { bytes: le_bytes_from_words(&reduced) }
}

/// Converts a base field element from the library-A byte form to the
/// library-B word form: a pure repacking of the same residue.
pub fn bls_fq_to_blst_fp(f: &BlsFq) -> (r: BlstFp)
    requires
        f.wf(),
    ensures
        r.wf(),
        r.canonical(),
        r.val() == f.val(),
{
    BlstFp { words: words_from_le_bytes(&f.bytes) }
}

/// Converts a base field element from the library-B word form back to the
/// library-A byte form.  Unlike the scalar bridge, an out-of-range word form
/// is rejected rather than silently reduced.
pub fn blst_fp_to_bls_fq(f: &BlstFp) -> (r: Option<BlsFq>)
    requires
        f.wf(),
    ensures
        r.is_some() <==> f.val() < base_modulus(),
        r.is_some() ==> r.unwrap().wf() && r.unwrap().val() == f.val(),
{
    let m = base_modulus_words();
    if big_lt(&f.words, &m) {
        Some(BlsFq { bytes: le_bytes_from_words(&f.words) })
    } else {
        None
    }
}

/// Law: bridging a scalar field element to the library-B word form and back
/// returns the original element.
pub proof fn lemma_scalar_round_trip(x: BlsFr, b: BlstFr, x2: BlsFr)
    requires
        x.wf(),
        b.wf(),
        b.val() == x.val(),
        x2.wf(),
        x2.val() == b.val() % scalar_modulus(),
    ensures
        x2.bytes@ == x.bytes@,
{
    lemma_small_mod(x.val(), scalar_modulus());
    lemma_le_bytes_nat_injective(x2.bytes@, x.bytes@);
}

/// Law: bridging a canonical library-B scalar word form to library A and back
/// returns the original word form.
pub proof fn lemma_scalar_round_trip_b(y: BlstFr, x: BlsFr, y2: BlstFr)
    requires
        y.canonical(),
        x.wf(),
        x.val() == y.val() % scalar_modulus(),
        y2.wf(),
        y2.val() == x.val(),
    ensures
        y2.words@ == y.words@,
{
    lemma_small_mod(y.val(), scalar_modulus());
    crate::words::lemma_le_words_nat_injective(y2.words@, y.words@);
}

/// Law: bridging a base field element to the library-B word form and back
/// succeeds and returns the original element.
pub proof fn lemma_base_round_trip(x: BlsFq, b: BlstFp, x2: Option<BlsFq>)
    requires
        x.wf(),
        b.wf(),
        b.val() == x.val(),
        x2.is_some() <==> b.val() < base_modulus(),
        x2.is_some() ==> x2.unwrap().wf() && x2.unwrap().val() == b.val(),
    ensures
        x2.is_some(),
        x2.unwrap().bytes@ == x.bytes@,
{
    lemma_le_bytes_nat_injective(x2.unwrap().bytes@, x.bytes@);
}

/// Law: bridging a canonical library-B base-field word form to library A and
/// back returns the original word form.
pub proof fn lemma_base_round_trip_b(y: BlstFp, x: Option<BlsFq>, y2: BlstFp)
    requires
        y.canonical(),
        x.is_some() <==> y.val() < base_modulus(),
        x.is_some() ==> x.unwrap().wf() && x.unwrap().val() == y.val(),
        y2.wf(),
        y2.val() == x.unwrap().val(),
    ensures
        y2.words@ == y.words@,
{
    crate::words::lemma_le_words_nat_injective(y2.words@, y.words@);
}

} // verus!
