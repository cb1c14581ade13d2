//! Ed25519 signatures through `ed25519-dalek`, and fresh randomness through
//! `rand`.
//!
//! Keys, messages and signatures cross this boundary as plain bytes. The
//! curve arithmetic is not modelled: three names stand for what the crate
//! computes, and the contracts of the library speak of those names.

use vstd::prelude::*;

verus! {

/// The signature that the secret key puts on a message. Ed25519 signs
/// without randomness, so key and message decide it.
pub uninterp spec fn ed25519_signature(secret_key: Seq<u8>, message: Seq<u8>) -> Seq<u8>;

/// The public key that belongs to a secret key.
pub uninterp spec fn ed25519_public(secret_key: Seq<u8>) -> Seq<u8>;

/// Whether the signature on the message checks out under the public key.
/// Bytes that are no public key accept nothing.
pub uninterp spec fn ed25519_accepts(public_key: Seq<u8>, message: Seq<u8>, signature: Seq<u8>) -> bool;

/// `SigningKey::from_bytes` and `Signer::sign`: the signature of the secret
/// key on the message. As the crate documents, the signature it makes is one
/// that the key's own public half accepts.
#[verifier::external_body]
pub(crate) fn ed25519_sign(secret_key: &[u8; 32], message: &[u8]) -> (signature: [u8; 64])
    ensures
        signature@ == ed25519_signature(secret_key@, message@),
        ed25519_accepts(ed25519_public(secret_key@), message@, signature@),
{
    let key = ed25519_dalek::SigningKey::from_bytes(secret_key);
    ed25519_dalek::Signer::sign(&key, message).to_bytes()
}

/// `SigningKey::from_bytes` and `verifying_key`: the public key of a secret
/// key.
#[verifier::external_body]
pub(crate) fn ed25519_public_key(secret_key: &[u8; 32]) -> (public_key: [u8; 32])
    ensures
        public_key@ == ed25519_public(secret_key@),
{
    ed25519_dalek::SigningKey::from_bytes(secret_key).verifying_key().to_bytes()
}

/// `VerifyingKey::from_bytes` and `Verifier::verify`: whether the signature
/// on the message checks out under the public key.
#[verifier::external_body]
pub(crate) fn ed25519_verify(public_key: &[u8; 32], message: &[u8], signature: &[u8; 64]) -> (valid:
    bool)
    ensures
        valid == ed25519_accepts(public_key@, message@, signature@),
{
    match ed25519_dalek::VerifyingKey::from_bytes(public_key) {
        Ok(key) => ed25519_dalek::Verifier::verify(
            &key,
            message,
            &ed25519_dalek::Signature::from_bytes(signature),
        ).is_ok(),
        Err(_) => false,
    }
}

/// `rand::random`: sixteen bytes from the thread's random generator. Nothing
/// is promised of them.
#[verifier::external_body]
pub(crate) fn random_seed() -> (seed: [u8; 16]) {
    rand::random::<[u8; 16]>()
}

} // verus!
