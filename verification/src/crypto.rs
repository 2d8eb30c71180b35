//! The cryptographic primitives.
//!
//! What a primitive computes is named, not spelled out: the contracts below are
//! believed, and say that the result depends on nothing but the bytes that the
//! name is applied to.

use vstd::prelude::*;
use digest::Digest;
use rsa::pkcs1::DecodeRsaPublicKey;
use rsa::signature::Verifier;

verus! {

/// The bytes are a SEC1-encoded P-256 public key.
pub uninterp spec fn is_p256_key(key: Seq<u8>) -> bool;

/// The bytes are a DER-encoded ECDSA signature for P-256.
pub uninterp spec fn is_p256_signature(signature: Seq<u8>) -> bool;

/// The key verifies the signature of the message, with P-256 and SHA-256.
pub uninterp spec fn p256_verifies(key: Seq<u8>, message: Seq<u8>, signature: Seq<u8>) -> bool;

/// `p256::ecdsa::VerifyingKey::from_sec1_bytes`: whether it accepts the key.
#[verifier::external_body]
pub(crate) fn p256_key_is_valid(key: &[u8]) -> (r: bool)
    ensures
        r == is_p256_key(key@),
{
    p256::ecdsa::VerifyingKey::from_sec1_bytes(key).is_ok()
}

/// `p256::ecdsa::Signature::from_der`: whether it accepts the signature.
#[verifier::external_body]
pub(crate) fn p256_signature_is_valid(signature: &[u8]) -> (r: bool)
    ensures
        r == is_p256_signature(signature@),
{
    p256::ecdsa::Signature::from_der(signature).is_ok()
}

/// `verify` of a `p256::ecdsa::VerifyingKey`: whether it accepts the signature of
/// the message, for a key and a signature that can be decoded.
#[verifier::external_body]
pub(crate) fn p256_verify(key: &[u8], message: &[u8], signature: &[u8]) -> (r: bool)
    ensures
        r == p256_verifies(key@, message@, signature@),
{
    let key = p256::ecdsa::VerifyingKey::from_sec1_bytes(key);
    match (key, p256::ecdsa::Signature::from_der(signature)) {
        (Ok(key), Ok(signature)) => key.verify(message, &signature).is_ok(),
        _ => false,
    }
}

/// The bytes are a SEC1-encoded P-384 public key.
pub uninterp spec fn is_p384_key(key: Seq<u8>) -> bool;

/// The bytes are a DER-encoded ECDSA signature for P-384.
pub uninterp spec fn is_p384_signature(signature: Seq<u8>) -> bool;

/// The key verifies the signature of the message, with P-384 and SHA-384.
pub uninterp spec fn p384_verifies(key: Seq<u8>, message: Seq<u8>, signature: Seq<u8>) -> bool;

/// `p384::ecdsa::VerifyingKey::from_sec1_bytes`: whether it accepts the key.
#[verifier::external_body]
pub(crate) fn p384_key_is_valid(key: &[u8]) -> (r: bool)
    ensures
        r == is_p384_key(key@),
{
    p384::ecdsa::VerifyingKey::from_sec1_bytes(key).is_ok()
}

/// `p384::ecdsa::Signature::from_der`: whether it accepts the signature.
#[verifier::external_body]
pub(crate) fn p384_signature_is_valid(signature: &[u8]) -> (r: bool)
    ensures
        r == is_p384_signature(signature@),
{
    p384::ecdsa::Signature::from_der(signature).is_ok()
}

/// `verify` of a `p384::ecdsa::VerifyingKey`: whether it accepts the signature of
/// the message, for a key and a signature that can be decoded.
#[verifier::external_body]
pub(crate) fn p384_verify(key: &[u8], message: &[u8], signature: &[u8]) -> (r: bool)
    ensures
        r == p384_verifies(key@, message@, signature@),
{
    let key = p384::ecdsa::VerifyingKey::from_sec1_bytes(key);
    match (key, p384::ecdsa::Signature::from_der(signature)) {
        (Ok(key), Ok(signature)) => key.verify(message, &signature).is_ok(),
        _ => false,
    }
}

/// The 32 bytes are an Ed25519 public key.
pub uninterp spec fn is_ed25519_key(key: Seq<u8>) -> bool;

/// The key verifies the signature of the message, with Ed25519.
pub uninterp spec fn ed25519_verifies(key: Seq<u8>, message: Seq<u8>, signature: Seq<u8>) -> bool;

/// `ed25519_dalek::VerifyingKey::from_bytes`: whether it accepts the key, which
/// has the length that it asks for.
#[verifier::external_body]
pub(crate) fn ed25519_key_is_valid(key: &[u8]) -> (r: bool)
    requires
        key@.len() == 32,
    ensures
        r == is_ed25519_key(key@),
{
    ed25519_dalek::VerifyingKey::from_bytes(key.try_into().unwrap()).is_ok()
}

/// `ed25519_dalek::Signature::try_from`: it accepts any 64 bytes, and nothing
/// else.
#[verifier::external_body]
pub(crate) fn ed25519_signature_is_valid(signature: &[u8]) -> (r: bool)
    ensures
        r == (signature@.len() == 64),
{
    ed25519_dalek::Signature::try_from(signature).is_ok()
}

/// `verify` of an `ed25519_dalek::VerifyingKey`: whether it accepts the signature
/// of the message, for a key and a signature that can be decoded.
#[verifier::external_body]
pub(crate) fn ed25519_verify(key: &[u8], message: &[u8], signature: &[u8]) -> (r: bool)
    requires
        key@.len() == 32,
    ensures
        r == ed25519_verifies(key@, message@, signature@),
{
    let key = ed25519_dalek::VerifyingKey::from_bytes(key.try_into().unwrap());
    match (key, ed25519_dalek::Signature::try_from(signature)) {
        (Ok(key), Ok(signature)) => key.verify(message, &signature).is_ok(),
        _ => false,
    }
}

/// The bytes are an RSA public key, encoded as PKCS #1 says, that the `rsa` crate
/// works with.
pub uninterp spec fn is_rsa_key(key: Seq<u8>) -> bool;

/// `rsa::RsaPublicKey::from_pkcs1_der`: whether it accepts the key. The verifying
/// keys of the crate are decoded through it.
#[verifier::external_body]
pub(crate) fn rsa_key_is_valid(key: &[u8]) -> (r: bool)
    ensures
        r == is_rsa_key(key@),
{
    rsa::RsaPublicKey::from_pkcs1_der(key).is_ok()
}

/// The key verifies the signature of the message, with PKCS #1 v1.5 and SHA-256.
pub uninterp spec fn rsa_pkcs1v15_sha256_verifies(
    key: Seq<u8>,
    message: Seq<u8>,
    signature: Seq<u8>,
) -> bool;

/// The key verifies the signature of the message, with PKCS #1 v1.5 and SHA-384.
pub uninterp spec fn rsa_pkcs1v15_sha384_verifies(
    key: Seq<u8>,
    message: Seq<u8>,
    signature: Seq<u8>,
) -> bool;

/// The key verifies the signature of the message, with PKCS #1 v1.5 and SHA-512.
pub uninterp spec fn rsa_pkcs1v15_sha512_verifies(
    key: Seq<u8>,
    message: Seq<u8>,
    signature: Seq<u8>,
) -> bool;

/// `verify` of an `rsa::pkcs1v15::VerifyingKey` for SHA-256: whether it accepts
/// the signature of the message, for a key that can be decoded. Any bytes can be
/// decoded as a signature.
#[verifier::external_body]
pub(crate) fn rsa_pkcs1v15_sha256_verify(key: &[u8], message: &[u8], signature: &[u8]) -> (r: bool)
    ensures
        r == rsa_pkcs1v15_sha256_verifies(key@, message@, signature@),
{
    let key = rsa::pkcs1v15::VerifyingKey::<sha2::Sha256>::from_pkcs1_der(key);
    match (key, rsa::pkcs1v15::Signature::try_from(signature)) {
        (Ok(key), Ok(signature)) => key.verify(message, &signature).is_ok(),
        _ => false,
    }
}

/// `verify` of an `rsa::pkcs1v15::VerifyingKey` for SHA-384: whether it accepts
/// the signature of the message, for a key that can be decoded. Any bytes can be
/// decoded as a signature.
#[verifier::external_body]
pub(crate) fn rsa_pkcs1v15_sha384_verify(key: &[u8], message: &[u8], signature: &[u8]) -> (r: bool)
    ensures
        r == rsa_pkcs1v15_sha384_verifies(key@, message@, signature@),
{
    let key = rsa::pkcs1v15::VerifyingKey::<sha2::Sha384>::from_pkcs1_der(key);
    match (key, rsa::pkcs1v15::Signature::try_from(signature)) {
        (Ok(key), Ok(signature)) => key.verify(message, &signature).is_ok(),
        _ => false,
    }
}

/// `verify` of an `rsa::pkcs1v15::VerifyingKey` for SHA-512: whether it accepts
/// the signature of the message, for a key that can be decoded. Any bytes can be
/// decoded as a signature.
#[verifier::external_body]
pub(crate) fn rsa_pkcs1v15_sha512_verify(key: &[u8], message: &[u8], signature: &[u8]) -> (r: bool)
    ensures
        r == rsa_pkcs1v15_sha512_verifies(key@, message@, signature@),
{
    let key = rsa::pkcs1v15::VerifyingKey::<sha2::Sha512>::from_pkcs1_der(key);
    match (key, rsa::pkcs1v15::Signature::try_from(signature)) {
        (Ok(key), Ok(signature)) => key.verify(message, &signature).is_ok(),
        _ => false,
    }
}

/// The key verifies the signature of the message, with PSS and SHA-256.
pub uninterp spec fn rsa_pss_sha256_verifies(
    key: Seq<u8>,
    message: Seq<u8>,
    signature: Seq<u8>,
) -> bool;

/// The key verifies the signature of the message, with PSS and SHA-384.
pub uninterp spec fn rsa_pss_sha384_verifies(
    key: Seq<u8>,
    message: Seq<u8>,
    signature: Seq<u8>,
) -> bool;

/// The key verifies the signature of the message, with PSS and SHA-512.
pub uninterp spec fn rsa_pss_sha512_verifies(
    key: Seq<u8>,
    message: Seq<u8>,
    signature: Seq<u8>,
) -> bool;

/// `verify` of an `rsa::pss::VerifyingKey` for SHA-256: whether it accepts the
/// signature of the message, for a key that can be decoded. Any bytes can be
/// decoded as a signature.
#[verifier::external_body]
pub(crate) fn rsa_pss_sha256_verify(key: &[u8], message: &[u8], signature: &[u8]) -> (r: bool)
    ensures
        r == rsa_pss_sha256_verifies(key@, message@, signature@),
{
    let key = rsa::RsaPublicKey::from_pkcs1_der(key).map(rsa::pss::VerifyingKey::<sha2::Sha256>::from);
    match (key, rsa::pss::Signature::try_from(signature)) {
        (Ok(key), Ok(signature)) => key.verify(message, &signature).is_ok(),
        _ => false,
    }
}

/// `verify` of an `rsa::pss::VerifyingKey` for SHA-384: whether it accepts the
/// signature of the message, for a key that can be decoded. Any bytes can be
/// decoded as a signature.
#[verifier::external_body]
pub(crate) fn rsa_pss_sha384_verify(key: &[u8], message: &[u8], signature: &[u8]) -> (r: bool)
    ensures
        r == rsa_pss_sha384_verifies(key@, message@, signature@),
{
    let key = rsa::RsaPublicKey::from_pkcs1_der(key).map(rsa::pss::VerifyingKey::<sha2::Sha384>::from);
    match (key, rsa::pss::Signature::try_from(signature)) {
        (Ok(key), Ok(signature)) => key.verify(message, &signature).is_ok(),
        _ => false,
    }
}

/// `verify` of an `rsa::pss::VerifyingKey` for SHA-512: whether it accepts the
/// signature of the message, for a key that can be decoded. Any bytes can be
/// decoded as a signature.
#[verifier::external_body]
pub(crate) fn rsa_pss_sha512_verify(key: &[u8], message: &[u8], signature: &[u8]) -> (r: bool)
    ensures
        r == rsa_pss_sha512_verifies(key@, message@, signature@),
{
    let key = rsa::RsaPublicKey::from_pkcs1_der(key).map(rsa::pss::VerifyingKey::<sha2::Sha512>::from);
    match (key, rsa::pss::Signature::try_from(signature)) {
        (Ok(key), Ok(signature)) => key.verify(message, &signature).is_ok(),
        _ => false,
    }
}

/// The SHA-256 digest of the message.
pub uninterp spec fn sha256(message: Seq<u8>) -> Seq<u8>;

/// The SHA-384 digest of the message.
pub uninterp spec fn sha384(message: Seq<u8>) -> Seq<u8>;

/// `digest::Digest::digest` for `sha2::Sha256`: the 32 bytes of the digest.
#[verifier::external_body]
pub(crate) fn sha256_digest(message: &[u8]) -> (r: Vec<u8>)
    ensures
        r@ == sha256(message@),
        r@.len() == 32,
{
    sha2::Sha256::digest(message).to_vec()
}

/// `digest::Digest::digest` for `sha2::Sha384`: the 48 bytes of the digest.
#[verifier::external_body]
pub(crate) fn sha384_digest(message: &[u8]) -> (r: Vec<u8>)
    ensures
        r@ == sha384(message@),
        r@.len() == 48,
{
    sha2::Sha384::digest(message).to_vec()
}

} // verus!
