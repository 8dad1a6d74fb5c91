//! SHA-256 digests, their truncations, and Ed25519 signatures.
use ed25519_dalek::{Signature, Signer, SigningKey, Verifier, VerifyingKey};
use sha2::Digest;
use vstd::prelude::*;

use crate::text::{bytes_hex_upper, hex_encode_upper};

verus! {

/// The SHA-256 digest of a byte string.
pub uninterp spec fn sha256_of(data: Seq<u8>) -> Seq<u8>;

/// The first `n` bytes of the SHA-256 digest of `data`.
pub open spec fn truncated_hash(data: Seq<u8>, n: nat) -> Seq<u8> {
    Seq::new(n, |i: int| sha256_of(data)[i])
}

/// `sha2::Sha256::digest` hashes the whole of `data`: the 32 bytes it returns depend on nothing but
/// the bytes of `data`.
#[verifier::external_body]
pub(crate) fn sha256(data: &[u8]) -> (digest: [u8; 32])
    ensures
        digest@ == sha256_of(data@),
{
    sha2::Sha256::digest(data).into()
}

/// The first eight bytes of the digest of `data`.
pub fn hash8(data: &[u8]) -> (h: [u8; 8])
    ensures
        h@ == truncated_hash(data@, 8),
{
    let d = sha256(data);
    let h: [u8; 8] = [d[0], d[1], d[2], d[3], d[4], d[5], d[6], d[7]];
    assert(h@ =~= truncated_hash(data@, 8));
    h
}

/// The first four bytes of the digest of `data`.
pub fn hash4(data: &[u8]) -> (h: [u8; 4])
    ensures
        h@ == truncated_hash(data@, 4),
{
    let d = sha256(data);
    let h: [u8; 4] = [d[0], d[1], d[2], d[3]];
    assert(h@ =~= truncated_hash(data@, 4));
    h
}

/// The Ed25519 public key of a 32-byte seed.
pub uninterp spec fn ed25519_public(seed: Seq<u8>) -> Seq<u8>;

/// The Ed25519 signature of a message under a 32-byte seed.
pub uninterp spec fn ed25519_signature(seed: Seq<u8>, message: Seq<u8>) -> Seq<u8>;

/// Whether a signature of a message is valid under a public key.
pub uninterp spec fn ed25519_accepts(
    public: Seq<u8>,
    message: Seq<u8>,
    signature: Seq<u8>,
) -> bool;

/// `ed25519_dalek::SigningKey::verifying_key` derives the public key from the seed alone.
#[verifier::external_body]
pub(crate) fn ed25519_public_from_seed(seed: &[u8; 32]) -> (public: [u8; 32])
    ensures
        public@ == ed25519_public(seed@),
{
    SigningKey::from_bytes(seed).verifying_key().to_bytes()
}

/// `ed25519_dalek::SigningKey::sign` is deterministic, and what it signs is accepted under the
/// seed's public key.
#[verifier::external_body]
pub(crate) fn ed25519_sign(seed: &[u8; 32], message: &[u8]) -> (signature: [u8; 64])
    ensures
        signature@ == ed25519_signature(seed@, message@),
        ed25519_accepts(ed25519_public(seed@), message@, signature@),
{
    SigningKey::from_bytes(seed).sign(message).to_bytes()
}

/// `ed25519_dalek::VerifyingKey::verify` decides by the key, the message and the signature alone; a
/// key that does not decode accepts nothing.
#[verifier::external_body]
pub(crate) fn ed25519_verify(public: &[u8; 32], message: &[u8], signature: &[u8; 64]) -> (r: bool)
    ensures
        r == ed25519_accepts(public@, message@, signature@),
{
    match VerifyingKey::from_bytes(public) {
        Ok(key) => key.verify(message, &Signature::from_bytes(signature)).is_ok(),
        Err(_) => false,
    }
}

/// The texts of a signing key and of its public key, in upper-case hexadecimal.
pub fn keypair_texts(seed: &[u8; 32]) -> (r: (String, String))
    ensures
        r.0@ == bytes_hex_upper(seed@),
        r.1@ == bytes_hex_upper(ed25519_public(seed@)),
{
    let public = ed25519_public_from_seed(seed);
    (hex_encode_upper(seed), hex_encode_upper(&public))
}

} // verus!
