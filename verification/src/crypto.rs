//! Hashing and signature primitives and the fixed-size byte strings they work on.
//!
//! SHA-256 and Ed25519 are not implemented here. They are called through a
//! handful of trusted functions, each of which names the value that the call
//! returns without saying how it is computed.

use ed25519_dalek::Signer;
use sha2::Digest;
use vstd::prelude::*;

verus! {

/// The SHA-256 digest of a byte string.
pub uninterp spec fn sha256(data: Seq<u8>) -> Seq<u8>;

/// The Ed25519 public key that belongs to a 32-byte seed.
pub uninterp spec fn ed25519_public_key(seed: Seq<u8>) -> Seq<u8>;

/// The Ed25519 signature that a 32-byte seed gives on a message.
pub uninterp spec fn ed25519_signature(seed: Seq<u8>, message: Seq<u8>) -> Seq<u8>;

/// Whether a signature on a message is accepted under a public key.
pub uninterp spec fn ed25519_accepts(key: Seq<u8>, message: Seq<u8>, signature: Seq<u8>) -> bool;

/// The all-zero byte string of a hash's length.
pub open spec fn spec_zero_bytes() -> Seq<u8> {
    Seq::new(32, |i: int| 0u8)
}

/// A SHA-256 digest.
#[derive(Clone, Copy, Debug, PartialEq, Eq)]
pub struct Hash {
    pub bytes: [u8; 32],
}

impl View for Hash {
    type V = Seq<u8>;

    open spec fn view(&self) -> Seq<u8> {
        self.bytes@
    }
}

/// An Ed25519 public key, which names a candidate or an elector.
#[derive(Clone, Copy, Debug, PartialEq, Eq)]
pub struct PublicKey {
    pub bytes: [u8; 32],
}

impl View for PublicKey {
    type V = Seq<u8>;

    open spec fn view(&self) -> Seq<u8> {
        self.bytes@
    }
}

/// The seed of an Ed25519 key pair.
#[derive(Clone, Copy, Debug, PartialEq, Eq)]
pub struct SecretKey {
    pub bytes: [u8; 32],
}

impl View for SecretKey {
    type V = Seq<u8>;

    open spec fn view(&self) -> Seq<u8> {
        self.bytes@
    }
}

/// An Ed25519 signature.
#[derive(Clone, Copy, Debug, PartialEq, Eq)]
pub struct Signature {
    pub bytes: [u8; 64],
}

impl View for Signature {
    type V = Seq<u8>;

    open spec fn view(&self) -> Seq<u8> {
        self.bytes@
    }
}

/// The hash that holds the given 32 bytes.
pub open spec fn spec_hash_from(bytes: Seq<u8>) -> Hash {
    Hash { bytes: choose|a: [u8; 32]| a@ == bytes }
}

/// The all-zero hash, which stands for "nothing here".
pub open spec fn spec_zero_hash() -> Hash {
    spec_hash_from(spec_zero_bytes())
}

/// The SHA-256 digest of a byte string, as a hash value.
pub open spec fn spec_hash(data: Seq<u8>) -> Hash {
    spec_hash_from(sha256(data))
}

/// Whether hashing tells two byte strings apart: they are the same string,
/// or their digests differ. Two strings for which this fails are a collision.
pub open spec fn spec_told_apart(a: Seq<u8>, b: Seq<u8>) -> bool {
    a == b || spec_hash(a) != spec_hash(b)
}

/// Whether hashing tells any two of the given byte strings apart.
pub open spec fn spec_collision_free(inputs: Set<Seq<u8>>) -> bool {
    forall|a: Seq<u8>, b: Seq<u8>| inputs.contains(a) && inputs.contains(b) ==> spec_told_apart(a, b)
}

/// Whether none of the given byte strings has the all-zero digest.
pub open spec fn spec_none_hashes_to_zero(inputs: Set<Seq<u8>>) -> bool {
    forall|a: Seq<u8>| inputs.contains(a) ==> spec_hash(a) != spec_zero_hash()
}

/// Two hashes that differ hold different bytes.
pub proof fn lemma_hash_view_differs(a: Hash, b: Hash)
    requires
        a != b,
    ensures
        a@ != b@,
{
    if a@ == b@ {
        lemma_array32_ext(a.bytes, b.bytes);
    }
}

/// A hash is determined by the bytes it holds.
pub proof fn lemma_hash_from_view(h: Hash)
    ensures
        spec_hash_from(h@) == h,
{
    let a = choose|a: [u8; 32]| a@ == h@;
    assert(h.bytes@ == h@);
    lemma_array32_ext(a, h.bytes);
}

/// Two 32-byte arrays with the same contents are the same array.
pub proof fn lemma_array32_ext(a: [u8; 32], b: [u8; 32])
    requires
        a@ == b@,
    ensures
        a == b,
{
    assert(a@ =~= b@);
}

/// Two 64-byte arrays with the same contents are the same array.
pub proof fn lemma_array64_ext(a: [u8; 64], b: [u8; 64])
    requires
        a@ == b@,
    ensures
        a == b,
{
    assert(a@ =~= b@);
}

/// Compares two 32-byte arrays.
pub fn bytes32_eq(a: &[u8; 32], b: &[u8; 32]) -> (r: bool)
    ensures
        r == (a@ == b@),
        r == (*a == *b),
{
    let mut i: usize = 0;
    while i < 32
        invariant
            i <= 32,
            forall|j: int| 0 <= j < i ==> a@[j] == b@[j],
        decreases 32 - i,
    {
        if a[i] != b[i] {
            return false;
        }
        i += 1;
    }
    proof {
        assert(a@ =~= b@);
        lemma_array32_ext(*a, *b);
    }
    true
}

impl Hash {
    /// Wraps 32 bytes.
    pub fn new(bytes: [u8; 32]) -> (r: Hash)
        ensures
            r.bytes == bytes,
    {
        Hash { bytes }
    }

    /// The all-zero hash.
    pub fn zero() -> (r: Hash)
        ensures
            r@ == spec_zero_bytes(),
            r == spec_zero_hash(),
    {
        let r = Hash { bytes: [0u8; 32] };
        proof {
            assert(r@ =~= spec_zero_bytes());
            lemma_hash_from_view(r);
        }
        r
    }

    /// Whether two hashes hold the same bytes.
    pub fn same(&self, other: &Hash) -> (r: bool)
        ensures
            r == (self@ == other@),
            r == (*self == *other),
    {
        bytes32_eq(&self.bytes, &other.bytes)
    }
}

impl PublicKey {
    /// Wraps 32 bytes.
    pub fn new(bytes: [u8; 32]) -> (r: PublicKey)
        ensures
            r.bytes == bytes,
    {
        PublicKey { bytes }
    }

    /// Whether two keys hold the same bytes.
    pub fn same(&self, other: &PublicKey) -> (r: bool)
        ensures
            r == (self@ == other@),
            r == (*self == *other),
    {
        bytes32_eq(&self.bytes, &other.bytes)
    }
}

impl SecretKey {
    /// Wraps a 32-byte seed.
    pub fn new(bytes: [u8; 32]) -> (r: SecretKey)
        ensures
            r.bytes == bytes,
    {
        SecretKey { bytes }
    }
}

impl Signature {
    /// Wraps 64 bytes.
    pub fn new(bytes: [u8; 64]) -> (r: Signature)
        ensures
            r.bytes == bytes,
    {
        Signature { bytes }
    }
}

/// Calls `sha2::Sha256::digest`. The contract only names the digest: the bytes
/// returned are the SHA-256 digest of the bytes given.
#[verifier::external_body]
fn sha256_digest(data: &[u8]) -> (r: [u8; 32])
    ensures
        r@ == sha256(data@),
{
    sha2::Sha256::digest(data).into()
}

/// Calls `ed25519_dalek::SigningKey::from_bytes` and reads the verifying key
/// of the result. The contract only names the key that belongs to the seed.
#[verifier::external_body]
fn ed25519_derive(seed: &[u8; 32]) -> (r: [u8; 32])
    ensures
        r@ == ed25519_public_key(seed@),
{
    ed25519_dalek::SigningKey::from_bytes(seed).verifying_key().to_bytes()
}

/// Calls `ed25519_dalek::Signer::sign` on the signing key made from the seed.
/// Ed25519 signing draws no randomness, so the contract names the signature
/// as a value of the seed and the message.
#[verifier::external_body]
fn ed25519_sign(seed: &[u8; 32], message: &[u8]) -> (r: [u8; 64])
    ensures
        r@ == ed25519_signature(seed@, message@),
{
    ed25519_dalek::SigningKey::from_bytes(seed).sign(message).to_bytes()
}

/// Calls `ed25519_dalek::VerifyingKey::verify_strict`. Bytes that are no
/// valid key are reported as a signature that is not accepted. The contract
/// only names the verdict.
#[verifier::external_body]
fn ed25519_verify(key: &[u8; 32], message: &[u8], signature: &[u8; 64]) -> (r: bool)
    ensures
        r == ed25519_accepts(key@, message@, signature@),
{
    match ed25519_dalek::VerifyingKey::from_bytes(key) {
        Ok(vk) => vk.verify_strict(message, &ed25519_dalek::Signature::from_bytes(signature)).is_ok(),
        Err(_) => false,
    }
}

/// The SHA-256 digest of `data`.
pub fn hash(data: &[u8]) -> (r: Hash)
    ensures
        r@ == sha256(data@),
        r == spec_hash(data@),
{
    let r = Hash { bytes: sha256_digest(data) };
    proof {
        lemma_hash_from_view(r);
    }
    r
}

/// The key pair that belongs to a seed.
pub fn gen_keypair_from_seed(seed: &[u8; 32]) -> (r: (PublicKey, SecretKey))
    ensures
        r.0@ == ed25519_public_key(seed@),
        r.1@ == seed@,
{
    (PublicKey { bytes: ed25519_derive(seed) }, SecretKey { bytes: *seed })
}

/// Signs `data` with the secret key.
pub fn sign(data: &[u8], secret_key: &SecretKey) -> (r: Signature)
    ensures
        r@ == ed25519_signature(secret_key@, data@),
{
    Signature { bytes: ed25519_sign(&secret_key.bytes, data) }
}

/// Whether `sig` is a signature on `data` that `pubkey` accepts.
pub fn verify(sig: &Signature, data: &[u8], pubkey: &PublicKey) -> (r: bool)
    ensures
        r == ed25519_accepts(pubkey@, data@, sig@),
{
    ed25519_verify(&pubkey.bytes, data, &sig.bytes)
}

} // verus!
