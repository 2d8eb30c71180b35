//! Signature algorithms, and the check of one signature.

use vstd::prelude::*;
use crate::asn1::TlvView;
use crate::crypto::{
    ed25519_key_is_valid, ed25519_signature_is_valid, ed25519_verifies, ed25519_verify,
    is_ed25519_key, is_p256_key, is_p256_signature, is_p384_key, is_p384_signature,
    p256_key_is_valid, p256_signature_is_valid, p256_verifies, p256_verify, p384_key_is_valid,
    p384_signature_is_valid, p384_verifies, p384_verify,
};
use crate::rsa_backend::{
    pkcs1v15_verifies, pss_verifies, HashAlgorithm, RsaBackend, SoftwareRsa,
};
use crate::x509::{optional_bytes, AlgorithmIdentifier, AlgorithmView};

verus! {

/// An algorithm that signatures are verified with.
#[derive(Clone, Copy, Debug, PartialEq, Eq, Structural)]
pub enum SignatureAlgorithm {
    EcdsaP256Sha256,
    EcdsaP384Sha384,
    Ed25519,
    RsaPkcs1v15(HashAlgorithm),
    RsaPss(HashAlgorithm),
}

/// The signature schemes of TLS 1.3.
#[derive(Clone, Copy, Debug, PartialEq, Eq, Structural)]
pub enum SignatureScheme {
    RsaPkcs1Sha256,
    RsaPkcs1Sha384,
    RsaPkcs1Sha512,
    EcdsaSecp256r1Sha256,
    EcdsaSecp384r1Sha384,
    EcdsaSecp521r1Sha512,
    RsaPssRsaeSha256,
    RsaPssRsaeSha384,
    RsaPssRsaeSha512,
    Ed25519,
    Ed448,
    RsaPssPssSha256,
    RsaPssPssSha384,
    RsaPssPssSha512,
    RsaPkcs1Sha1,
    EcdsaSha1,
}

/// What came of checking a signature.
#[derive(Clone, Copy, Debug, PartialEq, Eq, Structural)]
pub enum SignatureStatus {
    /// The algorithm is not verified here.
    Unsupported,
    /// The public key is not one for the algorithm.
    BadKey,
    /// The signature is not one for the algorithm.
    BadSignature,
    /// The signature is not the key's for the message.
    Mismatch,
    /// The signature is the key's for the message.
    Valid,
}

/// 1.2.840.10045.4.3.2
pub open spec fn ecdsa_sha256_oid() -> Seq<u8> {
    seq![0x2au8, 0x86u8, 0x48u8, 0xceu8, 0x3du8, 0x04u8, 0x03u8, 0x02u8]
}

/// 1.2.840.10045.4.3.3
pub open spec fn ecdsa_sha384_oid() -> Seq<u8> {
    seq![0x2au8, 0x86u8, 0x48u8, 0xceu8, 0x3du8, 0x04u8, 0x03u8, 0x03u8]
}

/// 1.3.101.112
pub open spec fn ed25519_oid() -> Seq<u8> {
    seq![0x2bu8, 0x65u8, 0x70u8]
}

/// 1.2.840.113549.1.1 and a last arc
pub open spec fn pkcs1_oid(last: u8) -> Seq<u8> {
    seq![0x2au8, 0x86u8, 0x48u8, 0x86u8, 0xf7u8, 0x0du8, 0x01u8, 0x01u8, last]
}

/// The parameters are the element NULL.
pub open spec fn is_null(parameters: Option<TlvView>) -> bool {
    parameters matches Some(p) && p.tag == 0x05 && p.value.len() == 0
}

/// The algorithm that an identifier in a certificate stands for. ECDSA and
/// Ed25519 have no parameters, RSA has NULL.
pub open spec fn identified_algorithm(a: AlgorithmView) -> Option<SignatureAlgorithm> {
    if a.parameters is None {
        if a.oid == ecdsa_sha256_oid() {
            Some(SignatureAlgorithm::EcdsaP256Sha256)
        } else if a.oid == ecdsa_sha384_oid() {
            Some(SignatureAlgorithm::EcdsaP384Sha384)
        } else if a.oid == ed25519_oid() {
            Some(SignatureAlgorithm::Ed25519)
        } else {
            None
        }
    } else if is_null(a.parameters) {
        if a.oid == pkcs1_oid(5) {
            Some(SignatureAlgorithm::RsaPkcs1v15(HashAlgorithm::Sha1))
        } else if a.oid == pkcs1_oid(11) {
            Some(SignatureAlgorithm::RsaPkcs1v15(HashAlgorithm::Sha256))
        } else if a.oid == pkcs1_oid(12) {
            Some(SignatureAlgorithm::RsaPkcs1v15(HashAlgorithm::Sha384))
        } else if a.oid == pkcs1_oid(13) {
            Some(SignatureAlgorithm::RsaPkcs1v15(HashAlgorithm::Sha512))
        } else {
            None
        }
    } else {
        None
    }
}

/// The algorithm of a signature scheme, for those that a server may sign with.
pub open spec fn scheme_algorithm(scheme: SignatureScheme) -> Option<SignatureAlgorithm> {
    match scheme {
        SignatureScheme::EcdsaSecp256r1Sha256 => Some(SignatureAlgorithm::EcdsaP256Sha256),
        SignatureScheme::EcdsaSecp384r1Sha384 => Some(SignatureAlgorithm::EcdsaP384Sha384),
        SignatureScheme::Ed25519 => Some(SignatureAlgorithm::Ed25519),
        SignatureScheme::RsaPssRsaeSha256 => Some(
            SignatureAlgorithm::RsaPss(HashAlgorithm::Sha256),
        ),
        SignatureScheme::RsaPssRsaeSha384 => Some(
            SignatureAlgorithm::RsaPss(HashAlgorithm::Sha384),
        ),
        SignatureScheme::RsaPssRsaeSha512 => Some(
            SignatureAlgorithm::RsaPss(HashAlgorithm::Sha512),
        ),
        _ => None,
    }
}

/// Signatures with the algorithm are verified. SHA-1 is left to backends that
/// take it, and only for PKCS #1 v1.5.
pub open spec fn is_supported<B: RsaBackend>(algorithm: SignatureAlgorithm) -> bool {
    match algorithm {
        SignatureAlgorithm::RsaPkcs1v15(hash) => hash is Sha1 ==> B::takes_sha1(),
        SignatureAlgorithm::RsaPss(hash) => !(hash is Sha1),
        _ => true,
    }
}

/// The key is one for the algorithm.
pub open spec fn is_key<B: RsaBackend>(algorithm: SignatureAlgorithm, key: Seq<u8>) -> bool {
    match algorithm {
        SignatureAlgorithm::EcdsaP256Sha256 => is_p256_key(key),
        SignatureAlgorithm::EcdsaP384Sha384 => is_p384_key(key),
        SignatureAlgorithm::Ed25519 => is_ed25519_key(key),
        SignatureAlgorithm::RsaPkcs1v15(hash) => B::takes_key(hash, key),
        SignatureAlgorithm::RsaPss(hash) => B::takes_key(hash, key),
    }
}

/// The signature is one for the algorithm. Any bytes are one for RSA.
pub open spec fn is_signature(algorithm: SignatureAlgorithm, signature: Seq<u8>) -> bool {
    match algorithm {
        SignatureAlgorithm::EcdsaP256Sha256 => is_p256_signature(signature),
        SignatureAlgorithm::EcdsaP384Sha384 => is_p384_signature(signature),
        SignatureAlgorithm::Ed25519 => signature.len() == 64,
        SignatureAlgorithm::RsaPkcs1v15(_) => true,
        SignatureAlgorithm::RsaPss(_) => true,
    }
}

/// The verdict on a signature can be `verified`.
pub open spec fn verdict<B: RsaBackend>(
    algorithm: SignatureAlgorithm,
    key: Seq<u8>,
    message: Seq<u8>,
    signature: Seq<u8>,
    verified: bool,
) -> bool {
    match algorithm {
        SignatureAlgorithm::EcdsaP256Sha256 => verified == p256_verifies(key, message, signature),
        SignatureAlgorithm::EcdsaP384Sha384 => verified == p384_verifies(key, message, signature),
        SignatureAlgorithm::Ed25519 => verified == ed25519_verifies(key, message, signature),
        SignatureAlgorithm::RsaPkcs1v15(hash) => B::pkcs1v15_verdict(
            hash,
            key,
            message,
            signature,
            verified,
        ),
        SignatureAlgorithm::RsaPss(hash) => B::pss_verdict(hash, key, message, signature, verified),
    }
}

/// The verdict on a signature where RSA is verified in software.
pub open spec fn software_verdict(
    algorithm: SignatureAlgorithm,
    key: Seq<u8>,
    message: Seq<u8>,
    signature: Seq<u8>,
) -> bool {
    match algorithm {
        SignatureAlgorithm::EcdsaP256Sha256 => p256_verifies(key, message, signature),
        SignatureAlgorithm::EcdsaP384Sha384 => p384_verifies(key, message, signature),
        SignatureAlgorithm::Ed25519 => ed25519_verifies(key, message, signature),
        SignatureAlgorithm::RsaPkcs1v15(hash) => pkcs1v15_verifies(hash, key, message, signature),
        SignatureAlgorithm::RsaPss(hash) => pss_verifies(hash, key, message, signature),
    }
}

/// The first thing that is wrong with a signature, in the order in which the
/// checks are made.
pub open spec fn status_of(
    supported: bool,
    key_ok: bool,
    signature_ok: bool,
    verified: bool,
) -> SignatureStatus {
    if !supported {
        SignatureStatus::Unsupported
    } else if !key_ok {
        SignatureStatus::BadKey
    } else if !signature_ok {
        SignatureStatus::BadSignature
    } else if !verified {
        SignatureStatus::Mismatch
    } else {
        SignatureStatus::Valid
    }
}

/// The status of a signature, given the verdict on it. There may be no signature
/// of whole bytes.
pub open spec fn status_with<B: RsaBackend>(
    algorithm: SignatureAlgorithm,
    key: Seq<u8>,
    signature: Option<Seq<u8>>,
    verified: bool,
) -> SignatureStatus {
    status_of(
        is_supported::<B>(algorithm),
        is_key::<B>(algorithm, key),
        signature matches Some(s) && is_signature(algorithm, s),
        verified,
    )
}

/// The status of a signature can be `status`: it follows from a verdict that the
/// backend can give, where there is a key and a signature to give one on.
pub open spec fn can_have_status<B: RsaBackend>(
    algorithm: SignatureAlgorithm,
    key: Seq<u8>,
    message: Seq<u8>,
    signature: Option<Seq<u8>>,
    status: SignatureStatus,
) -> bool {
    exists|verified: bool|
        {
            &&& status == #[trigger] status_with::<B>(algorithm, key, signature, verified)
            &&& status is Valid || status is Mismatch ==> verdict::<B>(
                algorithm,
                key,
                message,
                signature->Some_0,
                verified,
            )
        }
}

/// The status of a signature where RSA is verified in software.
pub open spec fn software_status(
    algorithm: SignatureAlgorithm,
    key: Seq<u8>,
    message: Seq<u8>,
    signature: Option<Seq<u8>>,
) -> SignatureStatus {
    status_with::<SoftwareRsa>(
        algorithm,
        key,
        signature,
        software_verdict(algorithm, key, message, signature->Some_0),
    )
}

/// With RSA in software, a signature has one status.
pub proof fn lemma_software_status(
    algorithm: SignatureAlgorithm,
    key: Seq<u8>,
    message: Seq<u8>,
    signature: Option<Seq<u8>>,
    status: SignatureStatus,
)
    ensures
        can_have_status::<SoftwareRsa>(algorithm, key, message, signature, status) <==> status
            == software_status(algorithm, key, message, signature),
{
    let v = software_verdict(algorithm, key, message, signature->Some_0);
    if status == software_status(algorithm, key, message, signature) {
        assert(status == status_with::<SoftwareRsa>(algorithm, key, signature, v));
    }
}

/// The key has the length that the algorithm's decoder takes.
pub open spec fn key_fits(algorithm: SignatureAlgorithm, key: Seq<u8>) -> bool {
    algorithm is Ed25519 ==> key.len() == 32
}

/// Whether the bytes are those of the object identifier.
fn oid_is(oid: &[u8], expected: &[u8]) -> (r: bool)
    ensures
        r == (oid@ == expected@),
{
    if oid.len() != expected.len() {
        return false;
    }
    let mut i: usize = 0;
    while i < oid.len()
        invariant
            i <= oid@.len(),
            oid@.len() == expected@.len(),
            forall|j: int| 0 <= j < i ==> oid@[j] == expected@[j],
        decreases oid@.len() - i,
    {
        if oid[i] != expected[i] {
            return false;
        }
        i = i + 1;
    }
    assert(oid@ =~= expected@);
    true
}

/// The algorithm that an identifier in a certificate stands for.
pub fn identify_algorithm(a: &AlgorithmIdentifier) -> (r: Option<SignatureAlgorithm>)
    ensures
        r == identified_algorithm(a@),
{
    match a.parameters {
        None => {
            let ecdsa_sha256: [u8; 8] = [0x2a, 0x86, 0x48, 0xce, 0x3d, 0x04, 0x03, 0x02];
            let ecdsa_sha384: [u8; 8] = [0x2a, 0x86, 0x48, 0xce, 0x3d, 0x04, 0x03, 0x03];
            let ed25519: [u8; 3] = [0x2b, 0x65, 0x70];
            proof {
                assert(ecdsa_sha256@ =~= ecdsa_sha256_oid());
                assert(ecdsa_sha384@ =~= ecdsa_sha384_oid());
                assert(ed25519@ =~= ed25519_oid());
            }
            if oid_is(a.oid, &ecdsa_sha256) {
                Some(SignatureAlgorithm::EcdsaP256Sha256)
            } else if oid_is(a.oid, &ecdsa_sha384) {
                Some(SignatureAlgorithm::EcdsaP384Sha384)
            } else if oid_is(a.oid, &ed25519) {
                Some(SignatureAlgorithm::Ed25519)
            } else {
                None
            }
        },
        Some(parameters) => {
            if parameters.tag != 0x05 || parameters.value.len() != 0 || a.oid.len() != 9 {
                return None;
            }
            let last: u8 = a.oid[8];
            let pkcs1: [u8; 9] = [0x2a, 0x86, 0x48, 0x86, 0xf7, 0x0d, 0x01, 0x01, last];
            proof {
                assert(pkcs1@ =~= pkcs1_oid(last));
                assert forall|n: u8| a.oid@ == #[trigger] pkcs1_oid(n) implies n == last by {
                    assert(pkcs1_oid(n)[8] == n);
                }
            }
            if !oid_is(a.oid, &pkcs1) {
                None
            } else if last == 5 {
                Some(SignatureAlgorithm::RsaPkcs1v15(HashAlgorithm::Sha1))
            } else if last == 11 {
                Some(SignatureAlgorithm::RsaPkcs1v15(HashAlgorithm::Sha256))
            } else if last == 12 {
                Some(SignatureAlgorithm::RsaPkcs1v15(HashAlgorithm::Sha384))
            } else if last == 13 {
                Some(SignatureAlgorithm::RsaPkcs1v15(HashAlgorithm::Sha512))
            } else {
                None
            }
        },
    }
}

/// The algorithm of a signature scheme, for those that a server may sign with.
pub fn algorithm_of_scheme(scheme: SignatureScheme) -> (r: Option<SignatureAlgorithm>)
    ensures
        r == scheme_algorithm(scheme),
{
    match scheme {
        SignatureScheme::EcdsaSecp256r1Sha256 => Some(SignatureAlgorithm::EcdsaP256Sha256),
        SignatureScheme::EcdsaSecp384r1Sha384 => Some(SignatureAlgorithm::EcdsaP384Sha384),
        SignatureScheme::Ed25519 => Some(SignatureAlgorithm::Ed25519),
        SignatureScheme::RsaPssRsaeSha256 => Some(
            SignatureAlgorithm::RsaPss(HashAlgorithm::Sha256),
        ),
        SignatureScheme::RsaPssRsaeSha384 => Some(
            SignatureAlgorithm::RsaPss(HashAlgorithm::Sha384),
        ),
        SignatureScheme::RsaPssRsaeSha512 => Some(
            SignatureAlgorithm::RsaPss(HashAlgorithm::Sha512),
        ),
        _ => None,
    }
}

/// The first thing that is wrong with a signature.
pub fn signature_status(supported: bool, key_ok: bool, signature_ok: bool, verified: bool) -> (r:
    SignatureStatus)
    ensures
        r == status_of(supported, key_ok, signature_ok, verified),
{
    if !supported {
        SignatureStatus::Unsupported
    } else if !key_ok {
        SignatureStatus::BadKey
    } else if !signature_ok {
        SignatureStatus::BadSignature
    } else if !verified {
        SignatureStatus::Mismatch
    } else {
        SignatureStatus::Valid
    }
}

fn supports<B: RsaBackend>(algorithm: SignatureAlgorithm) -> (r: bool)
    ensures
        r == is_supported::<B>(algorithm),
{
    match algorithm {
        SignatureAlgorithm::RsaPkcs1v15(hash) => hash != HashAlgorithm::Sha1 || B::accepts_sha1(),
        SignatureAlgorithm::RsaPss(hash) => hash != HashAlgorithm::Sha1,
        _ => true,
    }
}

fn key_is_valid<B: RsaBackend>(algorithm: SignatureAlgorithm, key: &[u8]) -> (r: bool)
    requires
        key_fits(algorithm, key@),
    ensures
        r == is_key::<B>(algorithm, key@),
{
    match algorithm {
        SignatureAlgorithm::EcdsaP256Sha256 => p256_key_is_valid(key),
        SignatureAlgorithm::EcdsaP384Sha384 => p384_key_is_valid(key),
        SignatureAlgorithm::Ed25519 => ed25519_key_is_valid(key),
        SignatureAlgorithm::RsaPkcs1v15(hash) => B::accepts_key(hash, key),
        SignatureAlgorithm::RsaPss(hash) => B::accepts_key(hash, key),
    }
}

fn signature_is_valid(algorithm: SignatureAlgorithm, signature: &[u8]) -> (r: bool)
    ensures
        r == is_signature(algorithm, signature@),
{
    match algorithm {
        SignatureAlgorithm::EcdsaP256Sha256 => p256_signature_is_valid(signature),
        SignatureAlgorithm::EcdsaP384Sha384 => p384_signature_is_valid(signature),
        SignatureAlgorithm::Ed25519 => ed25519_signature_is_valid(signature),
        SignatureAlgorithm::RsaPkcs1v15(_) => true,
        SignatureAlgorithm::RsaPss(_) => true,
    }
}

fn verify<B: RsaBackend>(
    algorithm: SignatureAlgorithm,
    key: &[u8],
    message: &[u8],
    signature: &[u8],
) -> (verified: bool)
    requires
        is_supported::<B>(algorithm),
        key_fits(algorithm, key@),
    ensures
        verdict::<B>(algorithm, key@, message@, signature@, verified),
{
    match algorithm {
        SignatureAlgorithm::EcdsaP256Sha256 => p256_verify(key, message, signature),
        SignatureAlgorithm::EcdsaP384Sha384 => p384_verify(key, message, signature),
        SignatureAlgorithm::Ed25519 => ed25519_verify(key, message, signature),
        SignatureAlgorithm::RsaPkcs1v15(hash) => B::verify_pkcs1v15(hash, key, message, signature),
        SignatureAlgorithm::RsaPss(hash) => B::verify_pss(hash, key, message, signature),
    }
}

/// Check a signature, where there is one: the algorithm first, then the key, then
/// the form of the signature, then the signature itself.
pub fn check_signature<B: RsaBackend>(
    algorithm: SignatureAlgorithm,
    key: &[u8],
    message: &[u8],
    signature: Option<&[u8]>,
) -> (r: SignatureStatus)
    requires
        key_fits(algorithm, key@),
    ensures
        can_have_status::<B>(algorithm, key@, message@, optional_bytes(signature), r),
{
    let supported: bool = supports::<B>(algorithm);
    let key_ok: bool = supported && key_is_valid::<B>(algorithm, key);
    let signature_ok: bool = key_ok && match signature {
        Some(s) => signature_is_valid(algorithm, s),
        None => false,
    };
    let verified: bool = signature_ok && match signature {
        Some(s) => verify::<B>(algorithm, key, message, s),
        None => false,
    };
    let status: SignatureStatus = signature_status(supported, key_ok, signature_ok, verified);
    assert(status == status_with::<B>(algorithm, key@, optional_bytes(signature), verified));
    status
}

} // verus!
