//! Which algorithms there are, and what verifies their signatures.

use vstd::prelude::*;
use crate::crypto::{
    ed25519_verifies, is_ed25519_key, is_p256_key, is_p256_signature, is_p384_key,
    is_p384_signature, is_rsa_key, p256_verifies, p384_verifies, rsa_pkcs1v15_sha256_verifies,
    rsa_pkcs1v15_sha384_verifies, rsa_pkcs1v15_sha512_verifies, rsa_pss_sha256_verifies,
    rsa_pss_sha384_verifies, rsa_pss_sha512_verifies,
};
use crate::rsa_backend::{
    HardwareRsa, HashAlgorithm, MixedRsa, RsaBackend, RsaHooks, SoftwareRsa,
};
use crate::signature::{
    ecdsa_sha256_oid, ecdsa_sha384_oid, ed25519_oid, identified_algorithm, is_key, is_signature,
    is_supported, pkcs1_oid, scheme_algorithm, verdict, SignatureAlgorithm, SignatureScheme,
};
use crate::x509::AlgorithmView;

verus! {

/// The identifier has no parameters.
pub open spec fn without_parameters(a: AlgorithmView) -> bool {
    a.parameters is None
}

/// The parameters of the identifier are NULL.
pub open spec fn with_null(a: AlgorithmView) -> bool {
    a.parameters matches Some(p) && p.tag == 0x05 && p.value.len() == 0
}

/// Each algorithm of certificates has one identifier: 1.2.840.10045.4.3.2 and
/// 1.2.840.10045.4.3.3 are ECDSA, 1.3.101.112 is Ed25519, all without parameters;
/// 1.2.840.113549.1.1 with the last arcs 5, 11, 12 and 13, and with NULL, is RSA.
/// No other identifier is known.
pub proof fn law_algorithms_exactly(a: AlgorithmView)
    ensures
        identified_algorithm(a) == Some(SignatureAlgorithm::EcdsaP256Sha256) <==> without_parameters(
            a,
        ) && a.oid == seq![0x2au8, 0x86u8, 0x48u8, 0xceu8, 0x3du8, 0x04u8, 0x03u8, 0x02u8],
        identified_algorithm(a) == Some(SignatureAlgorithm::EcdsaP384Sha384) <==> without_parameters(
            a,
        ) && a.oid == seq![0x2au8, 0x86u8, 0x48u8, 0xceu8, 0x3du8, 0x04u8, 0x03u8, 0x03u8],
        identified_algorithm(a) == Some(SignatureAlgorithm::Ed25519) <==> without_parameters(a)
            && a.oid == seq![0x2bu8, 0x65u8, 0x70u8],
        identified_algorithm(a) == Some(SignatureAlgorithm::RsaPkcs1v15(HashAlgorithm::Sha1)) <==>
            with_null(a) && a.oid == seq![
            0x2au8, 0x86u8, 0x48u8, 0x86u8, 0xf7u8, 0x0du8, 0x01u8, 0x01u8, 5u8,
        ],
        identified_algorithm(a) == Some(SignatureAlgorithm::RsaPkcs1v15(HashAlgorithm::Sha256)) <==>
            with_null(a) && a.oid == seq![
            0x2au8, 0x86u8, 0x48u8, 0x86u8, 0xf7u8, 0x0du8, 0x01u8, 0x01u8, 11u8,
        ],
        identified_algorithm(a) == Some(SignatureAlgorithm::RsaPkcs1v15(HashAlgorithm::Sha384)) <==>
            with_null(a) && a.oid == seq![
            0x2au8, 0x86u8, 0x48u8, 0x86u8, 0xf7u8, 0x0du8, 0x01u8, 0x01u8, 12u8,
        ],
        identified_algorithm(a) == Some(SignatureAlgorithm::RsaPkcs1v15(HashAlgorithm::Sha512)) <==>
            with_null(a) && a.oid == seq![
            0x2au8, 0x86u8, 0x48u8, 0x86u8, 0xf7u8, 0x0du8, 0x01u8, 0x01u8, 13u8,
        ],
        !(identified_algorithm(a) matches Some(SignatureAlgorithm::RsaPss(_))),
{
    let oid = a.oid;
    assert(ecdsa_sha256_oid()[7] == 2 && ecdsa_sha384_oid()[7] == 3);
    assert(ecdsa_sha256_oid().len() == 8 && ecdsa_sha384_oid().len() == 8);
    assert(ed25519_oid().len() == 3);
    assert(pkcs1_oid(5)[8] == 5 && pkcs1_oid(11)[8] == 11);
    assert(pkcs1_oid(12)[8] == 12 && pkcs1_oid(13)[8] == 13);
    assert(ecdsa_sha256_oid() == seq![
        0x2au8, 0x86u8, 0x48u8, 0xceu8, 0x3du8, 0x04u8, 0x03u8, 0x02u8,
    ]);
    assert(ecdsa_sha384_oid() == seq![
        0x2au8, 0x86u8, 0x48u8, 0xceu8, 0x3du8, 0x04u8, 0x03u8, 0x03u8,
    ]);
    assert(ed25519_oid() == seq![0x2bu8, 0x65u8, 0x70u8]);
    assert(pkcs1_oid(5) == seq![
        0x2au8, 0x86u8, 0x48u8, 0x86u8, 0xf7u8, 0x0du8, 0x01u8, 0x01u8, 5u8,
    ]);
    assert(pkcs1_oid(11) == seq![
        0x2au8, 0x86u8, 0x48u8, 0x86u8, 0xf7u8, 0x0du8, 0x01u8, 0x01u8, 11u8,
    ]);
    assert(pkcs1_oid(12) == seq![
        0x2au8, 0x86u8, 0x48u8, 0x86u8, 0xf7u8, 0x0du8, 0x01u8, 0x01u8, 12u8,
    ]);
    assert(pkcs1_oid(13) == seq![
        0x2au8, 0x86u8, 0x48u8, 0x86u8, 0xf7u8, 0x0du8, 0x01u8, 0x01u8, 13u8,
    ]);
}

/// Each scheme that a server may sign with has an algorithm of its own, and the
/// other schemes have none.
pub proof fn law_schemes_exactly(scheme: SignatureScheme)
    ensures
        scheme_algorithm(scheme) == Some(SignatureAlgorithm::EcdsaP256Sha256) <==> scheme
            is EcdsaSecp256r1Sha256,
        scheme_algorithm(scheme) == Some(SignatureAlgorithm::EcdsaP384Sha384) <==> scheme
            is EcdsaSecp384r1Sha384,
        scheme_algorithm(scheme) == Some(SignatureAlgorithm::Ed25519) <==> scheme is Ed25519,
        scheme_algorithm(scheme) == Some(SignatureAlgorithm::RsaPss(HashAlgorithm::Sha256)) <==> scheme
            is RsaPssRsaeSha256,
        scheme_algorithm(scheme) == Some(SignatureAlgorithm::RsaPss(HashAlgorithm::Sha384)) <==> scheme
            is RsaPssRsaeSha384,
        scheme_algorithm(scheme) == Some(SignatureAlgorithm::RsaPss(HashAlgorithm::Sha512)) <==> scheme
            is RsaPssRsaeSha512,
        scheme_algorithm(scheme) != Some(SignatureAlgorithm::RsaPss(HashAlgorithm::Sha1)),
        !(scheme_algorithm(scheme) matches Some(SignatureAlgorithm::RsaPkcs1v15(_))),
{
}

/// A P-256 signature is verified by P-256 and nothing else, whatever verifies RSA.
pub proof fn law_p256_exactly<B: RsaBackend>(
    key: Seq<u8>,
    message: Seq<u8>,
    signature: Seq<u8>,
    verified: bool,
)
    ensures
        ({
            let a = SignatureAlgorithm::EcdsaP256Sha256;
            &&& is_supported::<B>(a)
            &&& is_key::<B>(a, key) <==> is_p256_key(key)
            &&& is_signature(a, signature) <==> is_p256_signature(signature)
            &&& verdict::<B>(a, key, message, signature, verified) <==> verified == p256_verifies(
                key,
                message,
                signature,
            )
        }),
{
}

/// A P-384 signature is verified by P-384 and nothing else, whatever verifies RSA.
pub proof fn law_p384_exactly<B: RsaBackend>(
    key: Seq<u8>,
    message: Seq<u8>,
    signature: Seq<u8>,
    verified: bool,
)
    ensures
        ({
            let a = SignatureAlgorithm::EcdsaP384Sha384;
            &&& is_supported::<B>(a)
            &&& is_key::<B>(a, key) <==> is_p384_key(key)
            &&& is_signature(a, signature) <==> is_p384_signature(signature)
            &&& verdict::<B>(a, key, message, signature, verified) <==> verified == p384_verifies(
                key,
                message,
                signature,
            )
        }),
{
}

/// An Ed25519 signature is 64 bytes, and is verified by Ed25519 and nothing else,
/// whatever verifies RSA.
pub proof fn law_ed25519_exactly<B: RsaBackend>(
    key: Seq<u8>,
    message: Seq<u8>,
    signature: Seq<u8>,
    verified: bool,
)
    ensures
        ({
            let a = SignatureAlgorithm::Ed25519;
            &&& is_supported::<B>(a)
            &&& is_key::<B>(a, key) <==> is_ed25519_key(key)
            &&& is_signature(a, signature) <==> signature.len() == 64
            &&& verdict::<B>(a, key, message, signature, verified) <==> verified == ed25519_verifies(
                key,
                message,
                signature,
            )
        }),
{
}

/// The algorithm is one of RSA with the hash.
pub open spec fn is_rsa_with(a: SignatureAlgorithm, hash: HashAlgorithm) -> bool {
    a == SignatureAlgorithm::RsaPkcs1v15(hash) || a == SignatureAlgorithm::RsaPss(hash)
}

/// The `rsa` crate accepts the signature. It has no SHA-1.
pub open spec fn software_accepts(
    a: SignatureAlgorithm,
    key: Seq<u8>,
    message: Seq<u8>,
    signature: Seq<u8>,
) -> bool {
    ||| a == SignatureAlgorithm::RsaPkcs1v15(HashAlgorithm::Sha256) && rsa_pkcs1v15_sha256_verifies(
        key,
        message,
        signature,
    )
    ||| a == SignatureAlgorithm::RsaPkcs1v15(HashAlgorithm::Sha384) && rsa_pkcs1v15_sha384_verifies(
        key,
        message,
        signature,
    )
    ||| a == SignatureAlgorithm::RsaPkcs1v15(HashAlgorithm::Sha512) && rsa_pkcs1v15_sha512_verifies(
        key,
        message,
        signature,
    )
    ||| a == SignatureAlgorithm::RsaPss(HashAlgorithm::Sha256) && rsa_pss_sha256_verifies(
        key,
        message,
        signature,
    )
    ||| a == SignatureAlgorithm::RsaPss(HashAlgorithm::Sha384) && rsa_pss_sha384_verifies(
        key,
        message,
        signature,
    )
    ||| a == SignatureAlgorithm::RsaPss(HashAlgorithm::Sha512) && rsa_pss_sha512_verifies(
        key,
        message,
        signature,
    )
}

/// The device can answer `verified` to the hook for the algorithm.
pub open spec fn hardware_answers<H: RsaHooks>(
    a: SignatureAlgorithm,
    key: Seq<u8>,
    message: Seq<u8>,
    signature: Seq<u8>,
    verified: bool,
) -> bool {
    exists|k: &[u8], s: &[u8], m: &[u8]|
        #![trigger k@, s@, m@]
        k@ == key && s@ == signature && m@ == message && {
            ||| a == SignatureAlgorithm::RsaPkcs1v15(HashAlgorithm::Sha1) && call_ensures(
                H::verify_rsa_pkcs1v15_sha1,
                (k, s, m),
                verified,
            )
            ||| a == SignatureAlgorithm::RsaPkcs1v15(HashAlgorithm::Sha256) && call_ensures(
                H::verify_rsa_pkcs1v15_sha256,
                (k, s, m),
                verified,
            )
            ||| a == SignatureAlgorithm::RsaPkcs1v15(HashAlgorithm::Sha384) && call_ensures(
                H::verify_rsa_pkcs1v15_sha384,
                (k, s, m),
                verified,
            )
            ||| a == SignatureAlgorithm::RsaPkcs1v15(HashAlgorithm::Sha512) && call_ensures(
                H::verify_rsa_pkcs1v15_sha512,
                (k, s, m),
                verified,
            )
            ||| a == SignatureAlgorithm::RsaPss(HashAlgorithm::Sha256) && call_ensures(
                H::verify_rsa_pss_sha256,
                (k, s, m),
                verified,
            )
            ||| a == SignatureAlgorithm::RsaPss(HashAlgorithm::Sha384) && call_ensures(
                H::verify_rsa_pss_sha384,
                (k, s, m),
                verified,
            )
            ||| a == SignatureAlgorithm::RsaPss(HashAlgorithm::Sha512) && call_ensures(
                H::verify_rsa_pss_sha512,
                (k, s, m),
                verified,
            )
        }
}

/// With RSA in software, a signature is verified by the `rsa` crate, with the hash
/// of the algorithm and a key that the crate decodes; SHA-1 is not supported.
pub proof fn law_software_rsa_exactly(
    a: SignatureAlgorithm,
    hash: HashAlgorithm,
    key: Seq<u8>,
    message: Seq<u8>,
    signature: Seq<u8>,
    verified: bool,
)
    requires
        is_rsa_with(a, hash),
    ensures
        is_supported::<SoftwareRsa>(a) <==> !(hash is Sha1),
        is_key::<SoftwareRsa>(a, key) <==> is_rsa_key(key),
        is_signature(a, signature),
        verdict::<SoftwareRsa>(a, key, message, signature, verified) <==> verified
            == software_accepts(a, key, message, signature),
{
}

/// With RSA in hardware, a signature is verified by the hook for its algorithm, which
/// is handed the key, the signature and the message; any key is handed over, and
/// SHA-1 is supported for PKCS #1 v1.5.
pub proof fn law_hardware_rsa_exactly<H: RsaHooks>(
    a: SignatureAlgorithm,
    hash: HashAlgorithm,
    key: Seq<u8>,
    message: Seq<u8>,
    signature: Seq<u8>,
    verified: bool,
)
    requires
        is_rsa_with(a, hash),
    ensures
        is_supported::<HardwareRsa<H>>(a) <==> a != SignatureAlgorithm::RsaPss(HashAlgorithm::Sha1),
        is_key::<HardwareRsa<H>>(a, key),
        is_signature(a, signature),
        is_supported::<HardwareRsa<H>>(a) ==> (verdict::<HardwareRsa<H>>(
            a,
            key,
            message,
            signature,
            verified,
        ) <==> hardware_answers::<H>(a, key, message, signature, verified)),
{
}

/// With RSA in both, PKCS #1 v1.5 with SHA-1 is left to the hook for it, and all else
/// is verified in software.
pub proof fn law_mixed_rsa_exactly<H: RsaHooks>(
    a: SignatureAlgorithm,
    hash: HashAlgorithm,
    key: Seq<u8>,
    message: Seq<u8>,
    signature: Seq<u8>,
    verified: bool,
)
    requires
        is_rsa_with(a, hash),
    ensures
        is_supported::<MixedRsa<H>>(a) <==> a != SignatureAlgorithm::RsaPss(HashAlgorithm::Sha1),
        a == SignatureAlgorithm::RsaPkcs1v15(HashAlgorithm::Sha1) ==> is_key::<MixedRsa<H>>(a, key)
            && (verdict::<MixedRsa<H>>(a, key, message, signature, verified) <==> hardware_answers::<
            H,
        >(a, key, message, signature, verified)),
        !(hash is Sha1) ==> (is_key::<MixedRsa<H>>(a, key) <==> is_rsa_key(key)) && (verdict::<
            MixedRsa<H>,
        >(a, key, message, signature, verified) <==> verified == software_accepts(
            a,
            key,
            message,
            signature,
        )),
        is_signature(a, signature),
{
}

} // verus!
