//! Tests for the zkLogin derivation helpers.

use light_poseidon::PoseidonBytesHasher;
use zklogin_bridge::zklogin::{
    gen_address_seed, gen_address_seed_with_salt_hash, get_nonce, get_zk_login_address,
    hash_ascii_str_to_field, split_to_two_frs, Bn254FrElement, GetSaltResponse,
    TestIssuerJWTResponse,
};

const BN254_R_DEC: &str =
    "21888242871839275222246405745257275088548364400416034343698204186575808495617";

#[test]
fn field_element_parses_and_formats_decimal() {
    let x = Bn254FrElement::from_str("1234567890123456789").unwrap();
    assert_eq!(x.to_decimal_string(), "1234567890123456789");
    let zero = Bn254FrElement::from_str("0").unwrap();
    assert_eq!(zero.to_decimal_string(), "0");
    assert_eq!(zero.padded(), vec![0u8; 32]);
}

#[test]
fn field_element_canonicalizes_leading_zeros() {
    let x = Bn254FrElement::from_str("0255").unwrap();
    assert_eq!(x.to_decimal_string(), "255");
    let mut expected = vec![0u8; 32];
    expected[31] = 255;
    assert_eq!(x.padded(), expected);
}

#[test]
fn field_element_rejects_bad_strings() {
    assert!(Bn254FrElement::from_str("").is_err());
    assert!(Bn254FrElement::from_str("12a").is_err());
    assert!(Bn254FrElement::from_str("+12").is_err());
    assert!(Bn254FrElement::from_str("1_2").is_err());
    assert!(Bn254FrElement::from_str("über").is_err());
    // the field order itself is out of range, its predecessor is not
    assert!(Bn254FrElement::from_str(BN254_R_DEC).is_err());
    let below =
        "21888242871839275222246405745257275088548364400416034343698204186575808495616";
    assert!(Bn254FrElement::from_str(below).is_ok());
}

#[test]
fn split_reads_both_halves_big_endian() {
    let mut pk = vec![0u8; 33];
    pk[0] = 0x00;
    pk[16] = 0x01;
    pk[32] = 0x2a;
    let (first, second) = split_to_two_frs(&pk).unwrap();
    // first half: 17 bytes, only pk[16] = 1 set, in the least position
    assert_eq!(first.to_decimal_string(), "1");
    assert_eq!(second.to_decimal_string(), "42");
}

#[test]
fn split_of_large_halves_matches_big_integer_reading() {
    let pk: Vec<u8> = (0..33).map(|i| (255 - i) as u8).collect();
    let (first, second) = split_to_two_frs(&pk).unwrap();
    let f = num_bigint::BigUint::from_bytes_be(&pk[..17]);
    let s = num_bigint::BigUint::from_bytes_be(&pk[17..]);
    assert_eq!(first.to_decimal_string(), f.to_str_radix(10));
    assert_eq!(second.to_decimal_string(), s.to_str_radix(10));
}

#[test]
fn split_reduces_long_buffers_modulo_field_order() {
    // an 80-byte buffer: the 64-byte first half exceeds the field order and
    // must come back reduced, exactly as a big-integer remainder
    let pk: Vec<u8> = (0..80).map(|i| (i * 37 + 5) as u8).collect();
    let (first, second) = split_to_two_frs(&pk).unwrap();
    let r = num_bigint::BigUint::parse_bytes(BN254_R_DEC.as_bytes(), 10).unwrap();
    let f = num_bigint::BigUint::from_bytes_be(&pk[..64]) % &r;
    let s = num_bigint::BigUint::from_bytes_be(&pk[64..]) % &r;
    assert_eq!(first.to_decimal_string(), f.to_str_radix(10));
    assert_eq!(second.to_decimal_string(), s.to_str_radix(10));
}

#[test]
fn hash_ascii_str_enforces_bounds() {
    assert!(hash_ascii_str_to_field("sub", 32).is_ok());
    let long = "x".repeat(33);
    assert!(hash_ascii_str_to_field(&long, 32).is_err());
    assert!(hash_ascii_str_to_field("café", 32).is_err());
    let exact = "y".repeat(32);
    assert!(hash_ascii_str_to_field(&exact, 32).is_ok());
}

#[test]
fn hash_ascii_str_is_deterministic_and_injective_in_practice() {
    let a = hash_ascii_str_to_field("sub", 32).unwrap();
    let b = hash_ascii_str_to_field("sub", 32).unwrap();
    let c = hash_ascii_str_to_field("aud", 32).unwrap();
    assert_eq!(a, b);
    assert_ne!(a, c);
}

#[test]
fn address_seed_is_a_canonical_field_decimal() {
    let seed = gen_address_seed(
        "248191903847969014646285995941615069143",
        "sub",
        "904448692",
        "575519204237-msop9ep45u2uo98hapqmngv8d84qdc8k.apps.googleusercontent.com",
    )
    .unwrap();
    assert!(!seed.is_empty());
    assert!(seed.chars().all(|c| c.is_ascii_digit()));
    // it parses back as a canonical field element
    let fe = Bn254FrElement::from_str(&seed).unwrap();
    assert_eq!(fe.to_decimal_string(), seed);
    // deterministic, and sensitive to every input
    let again = gen_address_seed(
        "248191903847969014646285995941615069143",
        "sub",
        "904448692",
        "575519204237-msop9ep45u2uo98hapqmngv8d84qdc8k.apps.googleusercontent.com",
    )
    .unwrap();
    assert_eq!(seed, again);
    let other = gen_address_seed(
        "248191903847969014646285995941615069143",
        "sub",
        "904448693",
        "575519204237-msop9ep45u2uo98hapqmngv8d84qdc8k.apps.googleusercontent.com",
    )
    .unwrap();
    assert_ne!(seed, other);
}

#[test]
fn address_seed_rejects_bad_inputs() {
    assert!(gen_address_seed("not-a-number", "sub", "v", "a").is_err());
    assert!(gen_address_seed("5", &"n".repeat(33), "v", "a").is_err());
    assert!(gen_address_seed("5", "sub", &"v".repeat(116), "a").is_err());
    assert!(gen_address_seed("5", "sub", "v", &"a".repeat(146)).is_err());
}

#[test]
fn salt_hash_variant_matches_manual_composition() {
    // gen_address_seed("1", ...) must agree with hashing the salt first
    let via_salt = gen_address_seed("1", "sub", "v", "aud").unwrap();
    // the salt hash is itself an address-seed ingredient; recompute through
    // the public salt-hash entry point using the same intermediate string
    let seed_direct = gen_address_seed_with_salt_hash(
        &poseidon_of_one_decimal(),
        "sub",
        "v",
        "aud",
    )
    .unwrap();
    assert_eq!(via_salt, seed_direct);
}

/// The Poseidon hash of the single field element 1, as a decimal string,
/// computed with the same outside primitive the library calls.
fn poseidon_of_one_decimal() -> String {
    let mut one = [0u8; 32];
    one[31] = 1;
    let mut h = light_poseidon::Poseidon::<ark_bn254::Fr>::new_circom(1).unwrap();
    let out = h.hash_bytes_be(&[&one]).unwrap();
    num_bigint::BigUint::from_bytes_be(&out).to_str_radix(10)
}

#[test]
fn address_digest_depends_on_issuer_and_differs_from_preimage() {
    let seed = Bn254FrElement::from_str("12345").unwrap();
    let a = get_zk_login_address(&seed, "https://accounts.google.com").unwrap();
    let b = get_zk_login_address(&seed, "https://id.twitch.tv/oauth2").unwrap();
    assert_eq!(a.len(), 32);
    assert_ne!(a, b);
    // the digest is not the prefix of the preimage (the hash really ran)
    let iss = "https://accounts.google.com".as_bytes();
    let mut pre = vec![5u8, iss.len() as u8];
    pre.extend_from_slice(iss);
    pre.extend_from_slice(&seed.padded());
    assert_ne!(a[..], pre[..32]);
}

#[test]
fn nonce_has_base64url_shape() {
    let mut eph = vec![0u8; 33];
    eph[0] = 0x00;
    eph[32] = 0x07;
    let nonce = get_nonce(&eph, 10, "100681567828351849884072155819400689117").unwrap();
    // twenty bytes encode to 27 unpadded base64 characters
    assert_eq!(nonce.len(), 27);
    assert!(nonce
        .chars()
        .all(|c| c.is_ascii_alphanumeric() || c == '-' || c == '_'));
    // deterministic, and sensitive to the epoch bound
    let again = get_nonce(&eph, 10, "100681567828351849884072155819400689117").unwrap();
    assert_eq!(nonce, again);
    let other = get_nonce(&eph, 11, "100681567828351849884072155819400689117").unwrap();
    assert_ne!(nonce, other);
}

#[test]
fn nonce_rejects_bad_randomness() {
    let eph = vec![1u8; 33];
    assert!(get_nonce(&eph, 1, "not-decimal").is_err());
    assert!(get_nonce(&eph, 1, "").is_err());
}

#[test]
fn response_structs_carry_their_fields() {
    let s = GetSaltResponse { salt: String::from("129390038577185583942388216820280642146") };
    assert_eq!(s.salt.len(), 39);
    let j = TestIssuerJWTResponse { jwt: String::from("header.payload.signature") };
    assert!(j.jwt.len() > 0);
}
