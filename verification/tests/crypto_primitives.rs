use voting_service::crypto;
use voting_service::crypto::{gen_keypair_from_seed, hash, sign, verify, PublicKey, Signature};

fn hex(s: &str) -> Vec<u8> {
    (0..s.len() / 2)
        .map(|i| u8::from_str_radix(&s[2 * i..2 * i + 2], 16).unwrap())
        .collect()
}

fn hex32(s: &str) -> [u8; 32] {
    let mut out = [0u8; 32];
    out.copy_from_slice(&hex(s));
    out
}

fn hex64(s: &str) -> [u8; 64] {
    let mut out = [0u8; 64];
    out.copy_from_slice(&hex(s));
    out
}

const SEED: &str = "9d61b19deffd5a60ba844af492ec2cc44449c5697b326919703bac031cae7f60";
const PUBLIC: &str = "d75a980182b10ab7d54bfed3c964073a0ee172f3daa62325af021a68f707511a";
const SIGNATURE_OF_EMPTY: &str = "e5564300c360ac729086e2cc806e828a84877f1eb8e5d974d873e065224901555fb8821590a33bacc61e39701cf9b46bd25bf5f0595bbe24655141438e7a100b";

#[test]
fn hash_of_nothing_is_the_known_digest() {
    let expected = [
        227, 176, 196, 66, 152, 252, 28, 20, 154, 251, 244, 200, 153, 111, 185, 36, 39, 174, 65, 228,
        100, 155, 147, 76, 164, 149, 153, 27, 120, 82, 184, 85,
    ];
    assert_eq!(hash(&[]).bytes, expected);
}

#[test]
fn hash_of_abc_is_the_known_digest() {
    let expected = hex32("ba7816bf8f01cfea414140de5dae2223b00361a396177a9cb410ff61f20015ad");
    assert_eq!(hash(b"abc").bytes, expected);
}

#[test]
fn hash_differs_from_its_input() {
    let input = [7u8; 32];
    assert_ne!(hash(&input).bytes, input);
}

#[test]
fn zero_hash_is_all_zero() {
    assert_eq!(crypto::Hash::zero().bytes, [0u8; 32]);
    assert!(crypto::Hash::zero().same(&crypto::Hash::new([0u8; 32])));
    assert!(!crypto::Hash::zero().same(&hash(&[])));
}

#[test]
fn keypair_from_seed_gives_the_known_public_key() {
    let seed = hex32(SEED);
    let (public, secret) = gen_keypair_from_seed(&seed);
    assert_eq!(public.bytes, hex32(PUBLIC));
    assert_eq!(secret.bytes, seed);
    assert_ne!(public.bytes, seed);
}

#[test]
fn sign_gives_the_known_signature() {
    let (_, secret) = gen_keypair_from_seed(&hex32(SEED));
    let signature = sign(&[], &secret);
    assert_eq!(signature.bytes, hex64(SIGNATURE_OF_EMPTY));
}

#[test]
fn verify_accepts_the_signers_signature() {
    let (public, secret) = gen_keypair_from_seed(&hex32(SEED));
    let signature = sign(b"ballot", &secret);
    assert!(verify(&signature, b"ballot", &public));
}

#[test]
fn verify_refuses_another_message() {
    let (public, secret) = gen_keypair_from_seed(&hex32(SEED));
    let signature = sign(b"ballot", &secret);
    assert!(!verify(&signature, b"ballot!", &public));
}

#[test]
fn verify_refuses_another_key() {
    let (_, secret) = gen_keypair_from_seed(&hex32(SEED));
    let (other, _) = gen_keypair_from_seed(&[1u8; 32]);
    let signature = sign(b"ballot", &secret);
    assert!(!verify(&signature, b"ballot", &other));
}

#[test]
fn verify_refuses_an_altered_signature() {
    let (public, secret) = gen_keypair_from_seed(&hex32(SEED));
    let mut bytes = sign(b"ballot", &secret).bytes;
    bytes[0] ^= 1;
    assert!(!verify(&Signature::new(bytes), b"ballot", &public));
}

#[test]
fn verify_refuses_bytes_that_are_no_key() {
    let (_, secret) = gen_keypair_from_seed(&hex32(SEED));
    let signature = sign(b"ballot", &secret);
    let mut not_a_point = [0xffu8; 32];
    not_a_point[0] = 0xee;
    let mut refused = 0;
    for last in 0..=255u8 {
        not_a_point[31] = last;
        if !verify(&signature, b"ballot", &PublicKey::new(not_a_point)) {
            refused += 1;
        }
    }
    assert_eq!(refused, 256);
}
