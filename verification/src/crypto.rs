//! The cryptographic primitives the chain rests on: SHA-256 (from `sha2`),
//! Ed25519 keys and signatures (from `ed25519_dalek`) and fresh secret keys
//! from the operating system's generator (from `rand`).
//!
//! None of these algorithms is restated here. Each deterministic primitive
//! is given a name for its result, and the facts the rest of the library
//! uses are stated beside the calls.

use ed25519_dalek::{Signature, Signer, SigningKey, Verifier, VerifyingKey};
use rand::rngs::OsRng;
use rand::RngCore;
use sha2::{Digest, Sha256};
use vstd::prelude::*;

verus! {

/// Length in bytes of an Ed25519 secret key and of a public key.
pub const KEY_LENGTH: usize = 32;

/// Length in bytes of an Ed25519 signature.
pub const SIGNATURE_LENGTH: usize = 64;

/// The SHA-256 digest of a byte string.
pub uninterp spec fn sha256(data: Seq<u8>) -> Seq<u8>;

/// The compressed Ed25519 public key that belongs to a 32-byte secret key.
pub uninterp spec fn ed25519_public_key(secret: Seq<u8>) -> Seq<u8>;

/// Whether 32 bytes decompress to a point of the curve, that is whether
/// they are accepted as an Ed25519 public key.
pub uninterp spec fn ed25519_key_decodes(public: Seq<u8>) -> bool;

/// The (deterministic) Ed25519 signature of a message under a secret key.
pub uninterp spec fn ed25519_signature(secret: Seq<u8>, message: Seq<u8>) -> Seq<u8>;

/// Whether a 64-byte signature of a message is accepted under a 32-byte
/// public key (false as well when the key bytes do not decode).
pub uninterp spec fn ed25519_accepts(public: Seq<u8>, message: Seq<u8>, signature: Seq<u8>) -> bool;

/// Calls `sha2::Sha256::digest`. Trusted to return the 32-byte SHA-256
/// digest of `data`, named `sha256(data)`.
#[verifier::external_body]
pub(crate) fn sha256_digest(data: &[u8]) -> (digest: Vec<u8>)
    ensures
        digest@ == sha256(data@),
        digest@.len() == 32,
{
    Sha256::digest(data).to_vec()
}

/// Calls `ed25519_dalek::SigningKey::verifying_key` on the signing key made
/// from `secret` by `SigningKey::from_bytes`, and returns the key's bytes
/// (`VerifyingKey::to_bytes`). Trusted to return the 32 bytes named
/// `ed25519_public_key(secret)`, which always decode as a public key.
#[verifier::external_body]
pub(crate) fn derive_public_key(secret: &[u8]) -> (public: Vec<u8>)
    requires
        secret@.len() == KEY_LENGTH,
    ensures
        public@ == ed25519_public_key(secret@),
        public@.len() == KEY_LENGTH,
        ed25519_key_decodes(public@),
{
    let secret: [u8; 32] = secret.try_into().unwrap();
    SigningKey::from_bytes(&secret).verifying_key().to_bytes().to_vec()
}

/// Calls `ed25519_dalek::VerifyingKey::from_bytes`. Trusted to succeed
/// exactly when `ed25519_key_decodes(public)`.
#[verifier::external_body]
pub(crate) fn public_key_decodes(public: &[u8]) -> (ok: bool)
    requires
        public@.len() == KEY_LENGTH,
    ensures
        ok == ed25519_key_decodes(public@),
{
    let public: [u8; 32] = public.try_into().unwrap();
    VerifyingKey::from_bytes(&public).is_ok()
}

/// Calls `Signer::sign` of `ed25519_dalek::SigningKey` (the key made from
/// `secret`) and returns the signature's bytes. Trusted to return the 64
/// bytes named `ed25519_signature(secret, message)`, and, as Ed25519
/// promises, that this signature is accepted under the public key that
/// belongs to `secret`.
#[verifier::external_body]
pub(crate) fn sign_message(secret: &[u8], message: &[u8]) -> (signature: Vec<u8>)
    requires
        secret@.len() == KEY_LENGTH,
    ensures
        signature@ == ed25519_signature(secret@, message@),
        signature@.len() == SIGNATURE_LENGTH,
        ed25519_accepts(ed25519_public_key(secret@), message@, signature@),
{
    let secret: [u8; 32] = secret.try_into().unwrap();
    SigningKey::from_bytes(&secret).sign(message).to_bytes().to_vec()
}

/// Calls `Verifier::verify` of `ed25519_dalek::VerifyingKey` on the key
/// decoded from `public` by `VerifyingKey::from_bytes` (false when it does
/// not decode) and the signature read by `Signature::from_bytes`. Trusted
/// to return `ed25519_accepts(public, message, signature)`.
#[verifier::external_body]
pub(crate) fn verify_signature(public: &[u8], message: &[u8], signature: &[u8]) -> (ok: bool)
    requires
        public@.len() == KEY_LENGTH,
        signature@.len() == SIGNATURE_LENGTH,
    ensures
        ok == ed25519_accepts(public@, message@, signature@),
{
    let public: [u8; 32] = public.try_into().unwrap();
    let signature: [u8; 64] = signature.try_into().unwrap();
    match VerifyingKey::from_bytes(&public) {
        Ok(key) => key.verify(message, &Signature::from_bytes(&signature)).is_ok(),
        Err(_) => false,
    }
}

/// Calls `RngCore::fill_bytes` of `rand::rngs::OsRng` on 32 bytes. The
/// bytes come from the operating system and nothing is stated of them but
/// their number. (`fill_bytes` panics when the operating system cannot
/// supply random bytes; that depends on no argument and is not excluded.)
#[verifier::external_body]
pub(crate) fn random_secret_key() -> (secret: Vec<u8>)
    ensures
        secret@.len() == KEY_LENGTH,
{
    let mut secret = [0u8; 32];
    OsRng.fill_bytes(&mut secret);
    secret.to_vec()
}

} // verus!
