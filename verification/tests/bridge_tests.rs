//! Tests for the field and point bridges between the two boundary forms.

use zklogin_bridge::extensions::{
    bls_fq12_to_blst_fp12, bls_fq2_to_blst_fp2, bls_fq6_to_blst_fp6, blst_fp12_to_bls_fq12,
    blst_fp2_to_bls_fq2, blst_fp6_to_bls_fq6, BlsFq12, BlsFq2, BlsFq6, BlstFp2,
};
use zklogin_bridge::fields::{
    bls_fq_to_blst_fp, bls_fr_to_blst_fr, blst_fp_to_bls_fq, blst_fr_to_bls_fr, BlsFq, BlsFr,
    BlstFp, BlstFr,
};
use zklogin_bridge::points::{
    bls_g1_affine_to_blst_g1_affine, bls_g2_affine_to_blst_g2_affine,
    blst_g1_affine_to_bls_g1_affine, blst_g2_affine_to_bls_g2_affine, BlsG1Affine, BlsG2Affine,
    BlstP1Affine,
};
use zklogin_bridge::words::u64s_from_bytes;

const SCALAR_MODULUS_WORDS: [u64; 4] = [
    0xffffffff00000001,
    0x53bda402fffe5bfe,
    0x3339d80809a1d805,
    0x73eda753299d7d48,
];

const BASE_MODULUS_WORDS: [u64; 6] = [
    0xb9feffffffffaaab,
    0x1eabfffeb153ffff,
    0x6730d2a0f6b0f624,
    0x64774b84f38512bf,
    0x4b1ba7b6434bacd7,
    0x1a0111ea397fe69a,
];

fn fr_from_le(bytes: [u8; 32]) -> BlsFr {
    BlsFr { bytes: bytes.to_vec() }
}

fn fq_from_le(bytes: [u8; 48]) -> BlsFq {
    BlsFq { bytes: bytes.to_vec() }
}

fn small_fq(v: u8) -> BlsFq {
    let mut b = [0u8; 48];
    b[0] = v;
    fq_from_le(b)
}

#[test]
fn u64s_from_bytes_matches_native_word_reads() {
    let bytes: Vec<u8> = (0..32).map(|i| (7 * i + 3) as u8).collect();
    let words = u64s_from_bytes(&bytes);
    assert_eq!(words.len(), 4);
    for i in 0..4 {
        let chunk: [u8; 8] = bytes[8 * i..8 * i + 8].try_into().unwrap();
        assert_eq!(words[i], u64::from_le_bytes(chunk));
    }
}

#[test]
fn scalar_round_trips_through_word_form() {
    let mut b = [0u8; 32];
    b[0] = 0x11;
    b[31] = 0x02;
    let x = fr_from_le(b);
    let w = bls_fr_to_blst_fr(&x);
    let back = blst_fr_to_bls_fr(&w);
    assert_eq!(back, x);
}

#[test]
fn scalar_word_form_at_modulus_reduces_to_zero() {
    let w = BlstFr { words: SCALAR_MODULUS_WORDS.to_vec() };
    let back = blst_fr_to_bls_fr(&w);
    assert_eq!(back.bytes, vec![0u8; 32]);
}

#[test]
fn base_field_round_trips_through_word_form() {
    let x = small_fq(0x2b);
    let w = bls_fq_to_blst_fp(&x);
    let back = blst_fp_to_bls_fq(&w).expect("canonical");
    assert_eq!(back, x);
}

#[test]
fn base_field_word_form_at_modulus_is_rejected() {
    let w = BlstFp { words: BASE_MODULUS_WORDS.to_vec() };
    assert!(blst_fp_to_bls_fq(&w).is_none());
    let mut below = BASE_MODULUS_WORDS;
    below[0] -= 1;
    assert!(blst_fp_to_bls_fq(&BlstFp { words: below.to_vec() }).is_some());
}

#[test]
fn fq2_round_trips_coordinatewise() {
    let x = BlsFq2 { c0: small_fq(3), c1: small_fq(9) };
    let w = bls_fq2_to_blst_fp2(&x);
    assert_eq!(w.c0.words[0], 3);
    assert_eq!(w.c1.words[0], 9);
    let back = blst_fp2_to_bls_fq2(&w).expect("canonical");
    assert_eq!(back, x);
}

#[test]
fn fq2_rejects_out_of_range_coordinate() {
    let bad = BlstFp2 {
        c0: BlstFp { words: BASE_MODULUS_WORDS.to_vec() },
        c1: BlstFp { words: vec![0; 6] },
    };
    assert!(blst_fp2_to_bls_fq2(&bad).is_none());
}

#[test]
fn fq6_and_fq12_round_trip() {
    let e2 = |a: u8, b: u8| BlsFq2 { c0: small_fq(a), c1: small_fq(b) };
    let e6 = BlsFq6 { c0: e2(1, 2), c1: e2(3, 4), c2: e2(5, 6) };
    let w6 = bls_fq6_to_blst_fp6(&e6);
    assert_eq!(blst_fp6_to_bls_fq6(&w6).expect("canonical"), e6);
    let e12 = BlsFq12 {
        c0: e6.clone(),
        c1: BlsFq6 { c0: e2(7, 8), c1: e2(9, 10), c2: e2(11, 12) },
    };
    let w12 = bls_fq12_to_blst_fp12(&e12);
    assert_eq!(blst_fp12_to_bls_fq12(&w12).expect("canonical"), e12);
}

#[test]
fn g1_bridge_round_trips_known_point() {
    let bytes: Vec<u8> = {
        let s = "a572cbea904d67468808c8eb50a9450c9721db309128012543902d0ac358a62ae28f75bb8f1c7c42c39a8c5529bf0f4e";
        (0..s.len() / 2)
            .map(|i| u8::from_str_radix(&s[2 * i..2 * i + 2], 16).unwrap())
            .collect()
    };
    let p = zklogin_bridge::codec::bls_g1_affine_from_zcash_bytes(&bytes).expect("on curve");
    let w = bls_g1_affine_to_blst_g1_affine(&p);
    let back = blst_g1_affine_to_bls_g1_affine(&w);
    assert_eq!(back, p);
}

#[test]
fn g1_bridge_round_trips_identity() {
    let id = BlsG1Affine::identity();
    let w = bls_g1_affine_to_blst_g1_affine(&id);
    let back = blst_g1_affine_to_bls_g1_affine(&w);
    assert!(back.is_identity());
    assert_eq!(back, id);
}

#[test]
fn g1_word_form_coordinates_reduce_modulo_field() {
    // a coordinate equal to the modulus reads back as zero
    let w = BlstP1Affine {
        x: BlstFp { words: BASE_MODULUS_WORDS.to_vec() },
        y: BlstFp { words: vec![0; 6] },
    };
    let back = blst_g1_affine_to_bls_g1_affine(&w);
    assert_eq!(back.x.bytes, vec![0u8; 48]);
}

#[test]
fn g2_bridge_round_trips_identity_and_known_point() {
    let id = BlsG2Affine::identity();
    let w = bls_g2_affine_to_blst_g2_affine(&id);
    let back = blst_g2_affine_to_bls_g2_affine(&w).expect("canonical");
    assert!(back.is_identity());
    // a real G2 point from the pairing library
    let ikm = [4u8; 32];
    let sk = blst::min_sig::SecretKey::key_gen(&ikm, &[]).unwrap();
    let native = sk.sk_to_pk().compress().to_vec();
    let p = zklogin_bridge::codec::bls_g2_affine_from_zcash_bytes(&native).expect("decodes");
    let w2 = bls_g2_affine_to_blst_g2_affine(&p);
    let back2 = blst_g2_affine_to_bls_g2_affine(&w2).expect("canonical");
    assert_eq!(back2, p);
}
