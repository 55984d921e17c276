//! Ed25519 (RFC 8032) operations from `ed25519-dalek` and ES256 (ECDSA over
//! P-256 with SHA-256) operations from `p256`, over plain byte arrays.
use vstd::prelude::*;

verus! {

/// Whether `ed25519-dalek` accepts `signature` over `message` under the
/// public key `key` with `Verifier::verify`; false when `key` is not a valid
/// compressed point.
pub uninterp spec fn ed25519_accepts(key: Seq<u8>, message: Seq<u8>, signature: Seq<u8>) -> bool;

/// Whether `ed25519-dalek` accepts `signature` over `message` under the
/// public key `key` with `VerifyingKey::verify_strict`; false when `key` is
/// not a valid compressed point.
pub uninterp spec fn ed25519_strictly_accepts(key: Seq<u8>, message: Seq<u8>, signature: Seq<u8>) -> bool;

/// The Ed25519 signature of `message` under the secret key `secret`
/// (deterministic, RFC 8032 Section 5.1.6).
pub uninterp spec fn ed25519_signature(secret: Seq<u8>, message: Seq<u8>) -> Seq<u8>;

/// The Ed25519 public key of the secret key `secret`.
pub uninterp spec fn ed25519_public(secret: Seq<u8>) -> Seq<u8>;

/// `VerifyingKey::from_bytes` followed by `Verifier::verify` with the
/// 64-byte `signature`: whether the signature verifies. An invalid key
/// encoding (an outside error) counts as not verifying.
#[verifier::external_body]
pub(crate) fn ed25519_verify(key: &[u8; 32], message: &[u8], signature: &[u8]) -> (r: bool)
    requires
        signature@.len() == 64,
    ensures
        r == ed25519_accepts(key@, message@, signature@),
{
    match (ed25519_dalek::VerifyingKey::from_bytes(key), ed25519_dalek::Signature::from_slice(signature)) {
        (Ok(key), Ok(signature)) => ed25519_dalek::Verifier::verify(&key, message, &signature).is_ok(),
        _ => false,
    }
}

/// `VerifyingKey::from_bytes` followed by `VerifyingKey::verify_strict` with
/// the 64-byte `signature`: whether the signature verifies. An invalid key
/// encoding (an outside error) counts as not verifying.
#[verifier::external_body]
pub(crate) fn ed25519_verify_strict(key: &[u8; 32], message: &[u8], signature: &[u8]) -> (r: bool)
    requires
        signature@.len() == 64,
    ensures
        r == ed25519_strictly_accepts(key@, message@, signature@),
{
    match (ed25519_dalek::VerifyingKey::from_bytes(key), ed25519_dalek::Signature::from_slice(signature)) {
        (Ok(key), Ok(signature)) => key.verify_strict(message, &signature).is_ok(),
        _ => false,
    }
}

/// `SigningKey::from_bytes` followed by `Signer::sign`: the 64-byte
/// signature of `message`. Ed25519 signing is deterministic, and a signature
/// made with a secret key verifies under that key's public key with
/// `Verifier::verify`. Nothing is said of `verify_strict`, which refuses a
/// signature whose commitment point has small order, as a signing nonce of
/// zero would give.
#[verifier::external_body]
pub(crate) fn ed25519_sign(secret: &[u8; 32], message: &[u8]) -> (signature: [u8; 64])
    ensures
        signature@ == ed25519_signature(secret@, message@),
        ed25519_accepts(ed25519_public(secret@), message@, signature@),
{
    ed25519_dalek::Signer::sign(&ed25519_dalek::SigningKey::from_bytes(secret), message).to_bytes()
}

/// `SigningKey::from_bytes` followed by `SigningKey::verifying_key`: the
/// 32-byte public key of `secret`.
#[verifier::external_body]
pub(crate) fn ed25519_public_key(secret: &[u8; 32]) -> (key: [u8; 32])
    ensures
        key@ == ed25519_public(secret@),
{
    ed25519_dalek::SigningKey::from_bytes(secret).verifying_key().to_bytes()
}

/// The ES256 signature, `r || s`, that `p256` makes of `message` under the
/// big-endian secret scalar `secret` (RFC 6979 deterministic nonce), or
/// `None` when `secret` is not a valid P-256 scalar or signing fails.
pub uninterp spec fn es256_signature(secret: Seq<u8>, message: Seq<u8>) -> Option<Seq<u8>>;

/// Whether `p256` accepts the `r || s` signature `signature` over `message`
/// under the SEC1-encoded public key `key` with `Verifier::verify`; false
/// when `key` or `signature` does not decode.
pub uninterp spec fn es256_accepts(key: Seq<u8>, message: Seq<u8>, signature: Seq<u8>) -> bool;

/// `ecdsa::SigningKey::<NistP256>::from_slice` followed by
/// `Signer::try_sign`: the 64-byte `r || s` signature of `message`, or
/// `None` when the secret is not a valid scalar or signing fails.
#[verifier::external_body]
pub(crate) fn es256_sign(secret: &[u8; 32], message: &[u8]) -> (r: Option<[u8; 64]>)
    ensures
        match es256_signature(secret@, message@) {
            Some(s) => r matches Some(x) && x@ == s,
            None => r is None,
        },
{
    let key = p256::ecdsa::SigningKey::from_slice(secret).ok()?;
    let signature: p256::ecdsa::Signature = p256::ecdsa::signature::Signer::try_sign(&key, message).ok()?;
    let mut out = [0u8; 64];
    out.copy_from_slice(&signature.to_bytes());
    Some(out)
}

/// `VerifyingKey::from_sec1_bytes` and `Signature::from_slice`, then
/// `Verifier::verify`: whether the signature verifies. A key or signature
/// that does not decode (an outside error) counts as not verifying.
#[verifier::external_body]
pub(crate) fn es256_verify(key: &[u8], message: &[u8], signature: &[u8]) -> (r: bool)
    ensures
        r == es256_accepts(key@, message@, signature@),
{
    match (p256::ecdsa::VerifyingKey::from_sec1_bytes(key), p256::ecdsa::Signature::from_slice(signature)) {
        (Ok(key), Ok(signature)) => p256::ecdsa::signature::Verifier::verify(&key, message, &signature).is_ok(),
        _ => false,
    }
}

} // verus!
