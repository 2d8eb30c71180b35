//! Where RSA signatures are verified: in software, by hooks to hardware, or in
//! software with hooks for what it lacks.

use vstd::prelude::*;
use core::marker::PhantomData;
use crate::crypto::{
    is_rsa_key, rsa_key_is_valid, rsa_pkcs1v15_sha256_verifies, rsa_pkcs1v15_sha256_verify,
    rsa_pkcs1v15_sha384_verifies, rsa_pkcs1v15_sha384_verify, rsa_pkcs1v15_sha512_verifies,
    rsa_pkcs1v15_sha512_verify, rsa_pss_sha256_verifies, rsa_pss_sha256_verify,
    rsa_pss_sha384_verifies, rsa_pss_sha384_verify, rsa_pss_sha512_verifies, rsa_pss_sha512_verify,
};

verus! {

/// The hash of an RSA signature.
#[derive(Clone, Copy, Debug, PartialEq, Eq, Structural)]
pub enum HashAlgorithm {
    Sha1,
    Sha256,
    Sha384,
    Sha512,
}

/// A way to verify RSA signatures.
///
/// The verdict on a signature is constrained by a relation: software has one
/// verdict for given bytes, hardware may answer anything.
pub trait RsaBackend {
    /// The key can be worked with, for signatures with the hash.
    spec fn takes_key(hash: HashAlgorithm, key: Seq<u8>) -> bool;

    /// Signatures with SHA-1 are verified.
    spec fn takes_sha1() -> bool;

    /// The verdict on a PKCS #1 v1.5 signature can be `verified`.
    spec fn pkcs1v15_verdict(
        hash: HashAlgorithm,
        key: Seq<u8>,
        message: Seq<u8>,
        signature: Seq<u8>,
        verified: bool,
    ) -> bool;

    /// The verdict on a PSS signature can be `verified`.
    spec fn pss_verdict(
        hash: HashAlgorithm,
        key: Seq<u8>,
        message: Seq<u8>,
        signature: Seq<u8>,
        verified: bool,
    ) -> bool;

    /// Whether the key can be worked with, for signatures with the hash.
    fn accepts_key(hash: HashAlgorithm, key: &[u8]) -> (r: bool)
        ensures
            r == Self::takes_key(hash, key@),
    ;

    /// Whether signatures with SHA-1 are verified.
    fn accepts_sha1() -> (r: bool)
        ensures
            r == Self::takes_sha1(),
    ;

    /// Verify a PKCS #1 v1.5 signature.
    fn verify_pkcs1v15(
        hash: HashAlgorithm,
        key: &[u8],
        message: &[u8],
        signature: &[u8],
    ) -> (verified: bool)
        requires
            hash is Sha1 ==> Self::takes_sha1(),
        ensures
            Self::pkcs1v15_verdict(hash, key@, message@, signature@, verified),
    ;

    /// Verify a PSS signature.
    fn verify_pss(
        hash: HashAlgorithm,
        key: &[u8],
        message: &[u8],
        signature: &[u8],
    ) -> (verified: bool)
        requires
            !(hash is Sha1),
        ensures
            Self::pss_verdict(hash, key@, message@, signature@, verified),
    ;
}

/// The `rsa` crate verifies the signature with PKCS #1 v1.5. It has no SHA-1.
pub open spec fn pkcs1v15_verifies(
    hash: HashAlgorithm,
    key: Seq<u8>,
    message: Seq<u8>,
    signature: Seq<u8>,
) -> bool {
    match hash {
        HashAlgorithm::Sha1 => false,
        HashAlgorithm::Sha256 => rsa_pkcs1v15_sha256_verifies(key, message, signature),
        HashAlgorithm::Sha384 => rsa_pkcs1v15_sha384_verifies(key, message, signature),
        HashAlgorithm::Sha512 => rsa_pkcs1v15_sha512_verifies(key, message, signature),
    }
}

/// The `rsa` crate verifies the signature with PSS. It has no SHA-1.
pub open spec fn pss_verifies(
    hash: HashAlgorithm,
    key: Seq<u8>,
    message: Seq<u8>,
    signature: Seq<u8>,
) -> bool {
    match hash {
        HashAlgorithm::Sha1 => false,
        HashAlgorithm::Sha256 => rsa_pss_sha256_verifies(key, message, signature),
        HashAlgorithm::Sha384 => rsa_pss_sha384_verifies(key, message, signature),
        HashAlgorithm::Sha512 => rsa_pss_sha512_verifies(key, message, signature),
    }
}

/// RSA in software, by the `rsa` crate.
pub struct SoftwareRsa;

impl RsaBackend for SoftwareRsa {
    open spec fn takes_key(hash: HashAlgorithm, key: Seq<u8>) -> bool {
        is_rsa_key(key)
    }

    open spec fn takes_sha1() -> bool {
        false
    }

    open spec fn pkcs1v15_verdict(
        hash: HashAlgorithm,
        key: Seq<u8>,
        message: Seq<u8>,
        signature: Seq<u8>,
        verified: bool,
    ) -> bool {
        verified == pkcs1v15_verifies(hash, key, message, signature)
    }

    open spec fn pss_verdict(
        hash: HashAlgorithm,
        key: Seq<u8>,
        message: Seq<u8>,
        signature: Seq<u8>,
        verified: bool,
    ) -> bool {
        verified == pss_verifies(hash, key, message, signature)
    }

    fn accepts_key(hash: HashAlgorithm, key: &[u8]) -> (r: bool) {
        rsa_key_is_valid(key)
    }

    fn accepts_sha1() -> (r: bool) {
        false
    }

    fn verify_pkcs1v15(
        hash: HashAlgorithm,
        key: &[u8],
        message: &[u8],
        signature: &[u8],
    ) -> (verified: bool) {
        match hash {
            HashAlgorithm::Sha1 => false,
            HashAlgorithm::Sha256 => rsa_pkcs1v15_sha256_verify(key, message, signature),
            HashAlgorithm::Sha384 => rsa_pkcs1v15_sha384_verify(key, message, signature),
            HashAlgorithm::Sha512 => rsa_pkcs1v15_sha512_verify(key, message, signature),
        }
    }

    fn verify_pss(
        hash: HashAlgorithm,
        key: &[u8],
        message: &[u8],
        signature: &[u8],
    ) -> (verified: bool) {
        match hash {
            HashAlgorithm::Sha1 => false,
            HashAlgorithm::Sha256 => rsa_pss_sha256_verify(key, message, signature),
            HashAlgorithm::Sha384 => rsa_pss_sha384_verify(key, message, signature),
            HashAlgorithm::Sha512 => rsa_pss_sha512_verify(key, message, signature),
        }
    }
}

/// The hooks of a device that verifies RSA signatures. Each takes a public key
/// encoded as PKCS #1 says, a signature and a message, and tells whether the
/// signature is right. Nothing is asked of the answers.
pub trait RsaHooks {
    fn verify_rsa_pkcs1v15_sha1(key: &[u8], signature: &[u8], message: &[u8]) -> bool;

    fn verify_rsa_pkcs1v15_sha256(key: &[u8], signature: &[u8], message: &[u8]) -> bool;

    fn verify_rsa_pkcs1v15_sha384(key: &[u8], signature: &[u8], message: &[u8]) -> bool;

    fn verify_rsa_pkcs1v15_sha512(key: &[u8], signature: &[u8], message: &[u8]) -> bool;

    fn verify_rsa_pss_sha256(key: &[u8], signature: &[u8], message: &[u8]) -> bool;

    fn verify_rsa_pss_sha384(key: &[u8], signature: &[u8], message: &[u8]) -> bool;

    fn verify_rsa_pss_sha512(key: &[u8], signature: &[u8], message: &[u8]) -> bool;
}

/// The device can answer `verified` when it is handed these bytes as the key, the
/// signature and the message of a PKCS #1 v1.5 signature.
pub open spec fn pkcs1v15_answer<H: RsaHooks>(
    hash: HashAlgorithm,
    key: Seq<u8>,
    message: Seq<u8>,
    signature: Seq<u8>,
    verified: bool,
) -> bool {
    exists|k: &[u8], s: &[u8], m: &[u8]|
        #![trigger k@, s@, m@]
        k@ == key && s@ == signature && m@ == message && match hash {
            HashAlgorithm::Sha1 => call_ensures(H::verify_rsa_pkcs1v15_sha1, (k, s, m), verified),
            HashAlgorithm::Sha256 => call_ensures(H::verify_rsa_pkcs1v15_sha256, (k, s, m), verified),
            HashAlgorithm::Sha384 => call_ensures(H::verify_rsa_pkcs1v15_sha384, (k, s, m), verified),
            HashAlgorithm::Sha512 => call_ensures(H::verify_rsa_pkcs1v15_sha512, (k, s, m), verified),
        }
}

/// The device can answer `verified` when it is handed these bytes as the key, the
/// signature and the message of a PSS signature.
pub open spec fn pss_answer<H: RsaHooks>(
    hash: HashAlgorithm,
    key: Seq<u8>,
    message: Seq<u8>,
    signature: Seq<u8>,
    verified: bool,
) -> bool {
    exists|k: &[u8], s: &[u8], m: &[u8]|
        #![trigger k@, s@, m@]
        k@ == key && s@ == signature && m@ == message && match hash {
            HashAlgorithm::Sha1 => !verified,
            HashAlgorithm::Sha256 => call_ensures(H::verify_rsa_pss_sha256, (k, s, m), verified),
            HashAlgorithm::Sha384 => call_ensures(H::verify_rsa_pss_sha384, (k, s, m), verified),
            HashAlgorithm::Sha512 => call_ensures(H::verify_rsa_pss_sha512, (k, s, m), verified),
        }
}

/// RSA in hardware, reached through hooks. The device decodes the key itself.
pub struct HardwareRsa<H: RsaHooks> {
    hooks: PhantomData<H>,
}

impl<H: RsaHooks> RsaBackend for HardwareRsa<H> {
    open spec fn takes_key(hash: HashAlgorithm, key: Seq<u8>) -> bool {
        true
    }

    open spec fn takes_sha1() -> bool {
        true
    }

    open spec fn pkcs1v15_verdict(
        hash: HashAlgorithm,
        key: Seq<u8>,
        message: Seq<u8>,
        signature: Seq<u8>,
        verified: bool,
    ) -> bool {
        pkcs1v15_answer::<H>(hash, key, message, signature, verified)
    }

    open spec fn pss_verdict(
        hash: HashAlgorithm,
        key: Seq<u8>,
        message: Seq<u8>,
        signature: Seq<u8>,
        verified: bool,
    ) -> bool {
        pss_answer::<H>(hash, key, message, signature, verified)
    }

    fn accepts_key(hash: HashAlgorithm, key: &[u8]) -> (r: bool) {
        true
    }

    fn accepts_sha1() -> (r: bool) {
        true
    }

    fn verify_pkcs1v15(
        hash: HashAlgorithm,
        key: &[u8],
        message: &[u8],
        signature: &[u8],
    ) -> (verified: bool) {
        match hash {
            HashAlgorithm::Sha1 => {
                let verified: bool = H::verify_rsa_pkcs1v15_sha1(key, signature, message);
                assert(call_ensures(H::verify_rsa_pkcs1v15_sha1, (key, signature, message), verified));
                verified
            },
            HashAlgorithm::Sha256 => {
                let verified: bool = H::verify_rsa_pkcs1v15_sha256(key, signature, message);
                assert(call_ensures(H::verify_rsa_pkcs1v15_sha256, (key, signature, message), verified));
                verified
            },
            HashAlgorithm::Sha384 => {
                let verified: bool = H::verify_rsa_pkcs1v15_sha384(key, signature, message);
                assert(call_ensures(H::verify_rsa_pkcs1v15_sha384, (key, signature, message), verified));
                verified
            },
            HashAlgorithm::Sha512 => {
                let verified: bool = H::verify_rsa_pkcs1v15_sha512(key, signature, message);
                assert(call_ensures(H::verify_rsa_pkcs1v15_sha512, (key, signature, message), verified));
                verified
            },
        }
    }

    fn verify_pss(
        hash: HashAlgorithm,
        key: &[u8],
        message: &[u8],
        signature: &[u8],
    ) -> (verified: bool) {
        match hash {
            HashAlgorithm::Sha1 => false,
            HashAlgorithm::Sha256 => {
                let verified: bool = H::verify_rsa_pss_sha256(key, signature, message);
                assert(call_ensures(H::verify_rsa_pss_sha256, (key, signature, message), verified));
                verified
            },
            HashAlgorithm::Sha384 => {
                let verified: bool = H::verify_rsa_pss_sha384(key, signature, message);
                assert(call_ensures(H::verify_rsa_pss_sha384, (key, signature, message), verified));
                verified
            },
            HashAlgorithm::Sha512 => {
                let verified: bool = H::verify_rsa_pss_sha512(key, signature, message);
                assert(call_ensures(H::verify_rsa_pss_sha512, (key, signature, message), verified));
                verified
            },
        }
    }
}

/// RSA in software, but for PKCS #1 v1.5 signatures with SHA-1, which are left to
/// hardware. The device decodes their keys itself.
pub struct MixedRsa<H: RsaHooks> {
    hooks: PhantomData<H>,
}

impl<H: RsaHooks> RsaBackend for MixedRsa<H> {
    open spec fn takes_key(hash: HashAlgorithm, key: Seq<u8>) -> bool {
        hash is Sha1 || is_rsa_key(key)
    }

    open spec fn takes_sha1() -> bool {
        true
    }

    open spec fn pkcs1v15_verdict(
        hash: HashAlgorithm,
        key: Seq<u8>,
        message: Seq<u8>,
        signature: Seq<u8>,
        verified: bool,
    ) -> bool {
        if hash is Sha1 {
            pkcs1v15_answer::<H>(hash, key, message, signature, verified)
        } else {
            verified == pkcs1v15_verifies(hash, key, message, signature)
        }
    }

    open spec fn pss_verdict(
        hash: HashAlgorithm,
        key: Seq<u8>,
        message: Seq<u8>,
        signature: Seq<u8>,
        verified: bool,
    ) -> bool {
        verified == pss_verifies(hash, key, message, signature)
    }

    fn accepts_key(hash: HashAlgorithm, key: &[u8]) -> (r: bool) {
        hash == HashAlgorithm::Sha1 || SoftwareRsa::accepts_key(hash, key)
    }

    fn accepts_sha1() -> (r: bool) {
        true
    }

    fn verify_pkcs1v15(
        hash: HashAlgorithm,
        key: &[u8],
        message: &[u8],
        signature: &[u8],
    ) -> (verified: bool) {
        if hash == HashAlgorithm::Sha1 {
            HardwareRsa::<H>::verify_pkcs1v15(hash, key, message, signature)
        } else {
            SoftwareRsa::verify_pkcs1v15(hash, key, message, signature)
        }
    }

    fn verify_pss(
        hash: HashAlgorithm,
        key: &[u8],
        message: &[u8],
        signature: &[u8],
    ) -> (verified: bool) {
        SoftwareRsa::verify_pss(hash, key, message, signature)
    }
}

} // verus!
