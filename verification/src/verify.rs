//! Verification of one certificate by its issuer, and of one signed message.
//!
//! Functions with the suffix `_with` take RSA from a backend; those without it
//! verify RSA in software.

use vstd::prelude::*;
use vstd::utf8::valid_utf8;
use crate::buffers::{attribute_bytes, attribute_extend, attribute_new, name_bytes, name_from_utf8};
use crate::chain::{CertificateEntryRef, CertificateRef, EntryView};
use crate::error::{ParseError, TlsError};
use crate::hostname::{HostnameResult, HostnameView};
use crate::rsa_backend::{HashAlgorithm, RsaBackend, SoftwareRsa};
use crate::san::{host_bytes, san_match, san_matches_hostname};
use crate::signature::{
    algorithm_of_scheme, can_have_status, check_signature, identified_algorithm,
    identify_algorithm, key_fits, lemma_software_status, scheme_algorithm, software_status,
    SignatureAlgorithm, SignatureScheme, SignatureStatus,
};
use crate::time::{get_cert_time, Time};
use crate::x509::{
    attribute_views, certificate, get_certificate_tlv_bytes, name_views, optional_bytes,
    signed_bytes, AlgorithmIdentifier, AlgorithmView, AttributeTypeAndValue, AttributeView,
    DecodedCertificate,
};

verus! {

/// The object identifier 2.5.4.3 of common names, as content bytes.
pub open spec fn common_name_oid() -> Seq<u8> {
    seq![0x55u8, 0x04u8, 0x03u8]
}

/// The common name of a subject.
///
/// Only the first attribute of each relative name counts. A relative name without
/// one, and a common name of more than 64 bytes, are errors. Of several common
/// names the last one counts, and one that is not UTF-8 is as good as none.
pub open spec fn common_name(subject: Seq<Seq<AttributeView>>) -> Result<Option<Seq<u8>>, TlsError>
    decreases subject.len(),
{
    if subject.len() == 0 {
        Ok(None)
    } else {
        match common_name(subject.drop_last()) {
            Err(e) => Err(e),
            Ok(before) => {
                let attributes = subject.last();
                if attributes.len() == 0 {
                    Err(TlsError::ParseError(ParseError::InvalidData))
                } else if attributes[0].oid != common_name_oid() {
                    Ok(before)
                } else if attributes[0].value.len() > 64 {
                    Err(TlsError::ParseError(ParseError::InvalidData))
                } else if valid_utf8(attributes[0].value) {
                    Ok(Some(attributes[0].value))
                } else {
                    Ok(None)
                }
            },
        }
    }
}

/// What the alternative names of a certificate say about the host, where the
/// certificate has extensions.
pub open spec fn extensions_match(extensions: Option<Seq<u8>>, host: Option<Seq<u8>>) -> Result<
    Option<bool>,
    TlsError,
> {
    match extensions {
        None => Ok(None),
        Some(bytes) => match san_match(bytes, host) {
            Ok(m) => Ok(m),
            Err(()) => Err(TlsError::DecodeError),
        },
    }
}

/// The time, where it is known, lies in the period, ends included.
pub open spec fn in_period(now: Option<u64>, not_before: Time, not_after: Time) -> bool {
    now matches Some(t) ==> not_before.date_time().unix_time() <= t
        <= not_after.date_time().unix_time()
}

/// A certificate of which all is in order but for the signature, which is still
/// to be checked.
pub struct SignedView {
    /// The algorithm of the signature.
    pub algorithm: AlgorithmView,
    /// The public key of the issuer.
    pub key: Seq<u8>,
    /// The signed bytes.
    pub message: Seq<u8>,
    /// The signature, where it is made of whole bytes.
    pub signature: Option<Seq<u8>>,
    /// What the certificate says about the host.
    pub names: HostnameView,
}

/// The certificate and what is to be checked of it; or the first error, in the
/// order in which the fields are looked at.
pub open spec fn examined(
    verifier: EntryView,
    subject: EntryView,
    now: Option<u64>,
    host: Option<Seq<u8>>,
) -> Result<SignedView, TlsError> {
    match (verifier, subject) {
        (EntryView::RawPublicKey(_), _) => Err(TlsError::DecodeError),
        (EntryView::X509(ca), EntryView::RawPublicKey(_)) => if certificate(ca) is None {
            Err(TlsError::DecodeError)
        } else {
            Err(TlsError::InvalidCertificate)
        },
        (EntryView::X509(ca), EntryView::X509(bytes)) => match (
            certificate(ca),
            certificate(bytes),
        ) {
            (Some(issuer), Some(cert)) => match issuer.tbs.public_key {
                None => Err(TlsError::DecodeError),
                Some(key) => match common_name(cert.tbs.subject) {
                    Err(e) => Err(e),
                    Ok(cn) => match extensions_match(cert.tbs.extensions, host) {
                        Err(e) => Err(e),
                        Ok(san) => if !in_period(now, cert.tbs.not_before, cert.tbs.not_after) {
                            Err(TlsError::InvalidCertificate)
                        } else {
                            match signed_bytes(bytes) {
                                None => Err(TlsError::DecodeError),
                                Some(message) => Ok(
                                    SignedView {
                                        algorithm: cert.signature_algorithm,
                                        key,
                                        message,
                                        signature: cert.signature,
                                        names: HostnameView { common_name: cn, san_match: san },
                                    },
                                ),
                            }
                        },
                    },
                },
            },
            _ => Err(TlsError::DecodeError),
        },
    }
}

/// What the status of its signature makes of a certificate.
pub open spec fn certificate_outcome(status: SignatureStatus, names: HostnameView) -> Result<
    HostnameView,
    TlsError,
> {
    match status {
        SignatureStatus::Unsupported => Err(TlsError::InvalidSignatureScheme),
        SignatureStatus::BadKey => Err(TlsError::DecodeError),
        SignatureStatus::BadSignature => Err(TlsError::ParseError(ParseError::InvalidData)),
        SignatureStatus::Mismatch => Err(TlsError::InvalidCertificate),
        SignatureStatus::Valid => Ok(names),
    }
}

/// The check of the certificate's signature can end with `status`. An algorithm
/// that is not known is not supported.
pub open spec fn can_sign_status<B: RsaBackend>(signed: SignedView, status: SignatureStatus) -> bool {
    match identified_algorithm(signed.algorithm) {
        None => status is Unsupported,
        Some(algorithm) => can_have_status::<B>(
            algorithm,
            signed.key,
            signed.message,
            signed.signature,
            status,
        ),
    }
}

/// The status of the certificate's signature where RSA is verified in software.
pub open spec fn signed_status(signed: SignedView) -> SignatureStatus {
    match identified_algorithm(signed.algorithm) {
        None => SignatureStatus::Unsupported,
        Some(algorithm) => software_status(
            algorithm,
            signed.key,
            signed.message,
            signed.signature,
        ),
    }
}

/// The key of the issuer has the length that the decoder for the algorithm takes.
pub open spec fn signed_key_fits(signed: SignedView) -> bool {
    identified_algorithm(signed.algorithm) matches Some(algorithm) ==> key_fits(
        algorithm,
        signed.key,
    )
}

/// If the check of the pair gets as far as the signature, the key has the length
/// that its decoder takes.
pub open spec fn pair_fits(
    verifier: EntryView,
    subject: EntryView,
    now: Option<u64>,
    host: Option<Seq<u8>>,
) -> bool {
    examined(verifier, subject, now, host) matches Ok(signed) ==> signed_key_fits(signed)
}

/// The verification of the pair can end with `r`.
pub open spec fn can_result<B: RsaBackend>(
    verifier: EntryView,
    subject: EntryView,
    now: Option<u64>,
    host: Option<Seq<u8>>,
    r: Result<HostnameView, TlsError>,
) -> bool {
    match examined(verifier, subject, now, host) {
        Err(e) => r == Err::<HostnameView, TlsError>(e),
        Ok(signed) => exists|status: SignatureStatus|
            #[trigger] can_sign_status::<B>(signed, status) && r == certificate_outcome(
                status,
                signed.names,
            ),
    }
}

/// What the verification of the pair ends with where RSA is verified in software.
pub open spec fn software_result(
    verifier: EntryView,
    subject: EntryView,
    now: Option<u64>,
    host: Option<Seq<u8>>,
) -> Result<HostnameView, TlsError> {
    match examined(verifier, subject, now, host) {
        Err(e) => Err(e),
        Ok(signed) => certificate_outcome(signed_status(signed), signed.names),
    }
}

/// The view of a result.
pub open spec fn result_view(r: Result<HostnameResult, TlsError>) -> Result<
    HostnameView,
    TlsError,
> {
    match r {
        Ok(names) => Ok(names@),
        Err(e) => Err(e),
    }
}

/// With RSA in software, the verification of a pair has one result.
pub proof fn lemma_software_result(
    verifier: EntryView,
    subject: EntryView,
    now: Option<u64>,
    host: Option<Seq<u8>>,
    r: Result<HostnameView, TlsError>,
)
    ensures
        can_result::<SoftwareRsa>(verifier, subject, now, host, r) <==> r == software_result(
            verifier,
            subject,
            now,
            host,
        ),
{
    if let Ok(signed) = examined(verifier, subject, now, host) {
        assert forall|status: SignatureStatus| #[trigger]
            can_sign_status::<SoftwareRsa>(signed, status) <==> status == signed_status(
            signed,
        ) by {
            if let Some(a) = identified_algorithm(signed.algorithm) {
                lemma_software_status(a, signed.key, signed.message, signed.signature, status);
            }
        }
        assert(can_sign_status::<SoftwareRsa>(signed, signed_status(signed)));
    }
}

/// A certificate of which all is in order but for the signature.
pub struct SignedCertificate<'a> {
    /// The algorithm of the signature.
    pub algorithm: AlgorithmIdentifier<'a>,
    /// The public key of the issuer.
    pub key: &'a [u8],
    /// The signed bytes.
    pub message: &'a [u8],
    /// The signature, where it is made of whole bytes.
    pub signature: Option<&'a [u8]>,
    /// What the certificate says about the host.
    pub names: HostnameResult,
}

impl<'a> View for SignedCertificate<'a> {
    type V = SignedView;

    open spec fn view(&self) -> SignedView {
        SignedView {
            algorithm: self.algorithm@,
            key: self.key@,
            message: self.message@,
            signature: optional_bytes(self.signature),
            names: self.names@,
        }
    }
}

fn is_common_name_oid(oid: &[u8]) -> (r: bool)
    ensures
        r == (oid@ == common_name_oid()),
{
    let r: bool = oid.len() == 3 && oid[0] == 0x55 && oid[1] == 0x04 && oid[2] == 0x03;
    proof {
        if r {
            assert(oid@ =~= common_name_oid());
        } else if oid@ == common_name_oid() {
            assert(oid@.len() == 3);
            assert(oid@[0] == 0x55 && oid@[1] == 0x04 && oid@[2] == 0x03);
        }
    }
    r
}

/// The bytes of an optional name.
pub open spec fn optional_name(name: Option<heapless::String<64>>) -> Option<Seq<u8>> {
    match name {
        Some(n) => Some(name_bytes(n)),
        None => None,
    }
}

/// The common name of a subject.
pub fn read_common_name(subject: &Vec<Vec<AttributeTypeAndValue>>) -> (r: Result<
    Option<heapless::String<64>>,
    TlsError,
>)
    ensures
        match r {
            Ok(cn) => common_name(name_views(subject@)) == Ok::<Option<Seq<u8>>, TlsError>(
                optional_name(cn),
            ),
            Err(e) => common_name(name_views(subject@)) == Err::<Option<Seq<u8>>, TlsError>(e),
        },
{
    let ghost all = name_views(subject@);
    let mut cn: Option<heapless::String<64>> = None;
    let mut i: usize = 0;
    proof {
        assert(all.take(0) =~= Seq::<Seq<AttributeView>>::empty());
    }
    while i < subject.len()
        invariant
            i <= subject@.len(),
            all == name_views(subject@),
            common_name(all.take(i as int)) == Ok::<Option<Seq<u8>>, TlsError>(optional_name(cn)),
        decreases subject@.len() - i,
    {
        let ghost upto = all.take(i + 1);
        proof {
            assert(upto.drop_last() =~= all.take(i as int));
            assert(upto.last() == attribute_views(subject@[i as int]@));
            if common_name(upto) is Err {
                lemma_common_name_error(all, i + 1);
            }
        }
        if subject[i].len() == 0 {
            return Err(TlsError::ParseError(ParseError::InvalidData));
        }
        let attribute: AttributeTypeAndValue = subject[i][0];
        if is_common_name_oid(attribute.oid) {
            let mut v: heapless::Vec<u8, 64> = attribute_new();
            if !attribute_extend(&mut v, attribute.value) {
                return Err(TlsError::ParseError(ParseError::InvalidData));
            }
            assert(attribute_bytes(v) =~= attribute.value@);
            cn = name_from_utf8(v);
        }
        i = i + 1;
    }
    assert(all.take(i as int) =~= all);
    Ok(cn)
}

/// An error in the first relative names is the error of the whole subject.
proof fn lemma_common_name_error(subject: Seq<Seq<AttributeView>>, n: int)
    requires
        0 <= n <= subject.len(),
        common_name(subject.take(n)) is Err,
    ensures
        common_name(subject) == common_name(subject.take(n)),
    decreases subject.len() - n,
{
    if n == subject.len() {
        assert(subject.take(n) =~= subject);
    } else {
        assert(subject.take(n + 1).drop_last() =~= subject.take(n));
        lemma_common_name_error(subject, n + 1);
    }
}

/// Look at all of a certificate but for its signature.
pub fn examine_certificate<'a>(
    verifier: &CertificateEntryRef<'a>,
    certificate: &CertificateEntryRef<'a>,
    now: Option<u64>,
    hostname: Option<&str>,
) -> (r: Result<SignedCertificate<'a>, TlsError>)
    ensures
        match r {
            Ok(signed) => examined(verifier@, certificate@, now, host_bytes(hostname)) == Ok::<
                SignedView,
                TlsError,
            >(signed@),
            Err(e) => examined(verifier@, certificate@, now, host_bytes(hostname)) == Err::<
                SignedView,
                TlsError,
            >(e),
        },
{
    let ca_certificate: DecodedCertificate<'a> = match verifier {
        CertificateEntryRef::X509(ca) => match DecodedCertificate::from_der(ca) {
            Ok(decoded) => decoded,
            Err(e) => {
                return Err(e);
            },
        },
        CertificateEntryRef::RawPublicKey(_) => {
            return Err(TlsError::DecodeError);
        },
    };
    let bytes: &'a [u8] = match certificate {
        CertificateEntryRef::X509(bytes) => bytes,
        CertificateEntryRef::RawPublicKey(_) => {
            return Err(TlsError::InvalidCertificate);
        },
    };
    let parsed: DecodedCertificate<'a> = match DecodedCertificate::from_der(bytes) {
        Ok(decoded) => decoded,
        Err(e) => {
            return Err(e);
        },
    };
    let key: &'a [u8] = match ca_certificate.tbs_certificate.public_key {
        Some(key) => key,
        None => {
            return Err(TlsError::DecodeError);
        },
    };
    let common_name: Option<heapless::String<64>> = match read_common_name(
        &parsed.tbs_certificate.subject,
    ) {
        Ok(common_name) => common_name,
        Err(e) => {
            return Err(e);
        },
    };
    let san_match: Option<bool> = match parsed.tbs_certificate.extensions {
        Some(extensions) => match san_matches_hostname(extensions, hostname) {
            Ok(san_match) => san_match,
            Err(()) => {
                return Err(TlsError::DecodeError);
            },
        },
        None => None,
    };
    if let Some(now) = now {
        let not_before: u64 = get_cert_time(parsed.tbs_certificate.not_before);
        let not_after: u64 = get_cert_time(parsed.tbs_certificate.not_after);
        if not_before > now || not_after < now {
            return Err(TlsError::InvalidCertificate);
        }
    }
    let message: &'a [u8] = match get_certificate_tlv_bytes(bytes) {
        Ok(message) => message,
        Err(e) => {
            return Err(e);
        },
    };
    Ok(
        SignedCertificate {
            algorithm: parsed.signature_algorithm,
            key,
            message,
            signature: parsed.signature,
            names: HostnameResult { common_name, san_match },
        },
    )
}

/// What the status of its signature makes of a certificate.
pub fn conclude_certificate(status: SignatureStatus, names: HostnameResult) -> (r: Result<
    HostnameResult,
    TlsError,
>)
    ensures
        result_view(r) == certificate_outcome(status, names@),
{
    match status {
        SignatureStatus::Unsupported => Err(TlsError::InvalidSignatureScheme),
        SignatureStatus::BadKey => Err(TlsError::DecodeError),
        SignatureStatus::BadSignature => Err(TlsError::ParseError(ParseError::InvalidData)),
        SignatureStatus::Mismatch => Err(TlsError::InvalidCertificate),
        SignatureStatus::Valid => Ok(names),
    }
}

/// Verify a certificate by the certificate of its issuer.
///
/// The issuer is not asked whether it may issue certificates. The time is not
/// checked where `now` is `None`.
pub fn verify_certificate_with<B: RsaBackend>(
    verifier: &CertificateEntryRef,
    certificate: &CertificateEntryRef,
    now: Option<u64>,
    hostname: Option<&str>,
) -> (r: Result<HostnameResult, TlsError>)
    requires
        pair_fits(verifier@, certificate@, now, host_bytes(hostname)),
    ensures
        can_result::<B>(verifier@, certificate@, now, host_bytes(hostname), result_view(r)),
{
    let signed: SignedCertificate = match examine_certificate(
        verifier,
        certificate,
        now,
        hostname,
    ) {
        Ok(signed) => signed,
        Err(e) => {
            return Err(e);
        },
    };
    let status: SignatureStatus = match identify_algorithm(&signed.algorithm) {
        Some(algorithm) => check_signature::<B>(
            algorithm,
            signed.key,
            signed.message,
            signed.signature,
        ),
        None => SignatureStatus::Unsupported,
    };
    assert(can_sign_status::<B>(signed@, status));
    conclude_certificate(status, signed.names)
}

/// Verify a certificate by the certificate of its issuer, with RSA in software.
pub fn verify_certificate(
    verifier: &CertificateEntryRef,
    certificate: &CertificateEntryRef,
    now: Option<u64>,
    hostname: Option<&str>,
) -> (r: Result<HostnameResult, TlsError>)
    requires
        pair_fits(verifier@, certificate@, now, host_bytes(hostname)),
    ensures
        result_view(r) == software_result(verifier@, certificate@, now, host_bytes(hostname)),
{
    let r: Result<HostnameResult, TlsError> = verify_certificate_with::<SoftwareRsa>(
        verifier,
        certificate,
        now,
        hostname,
    );
    proof {
        lemma_software_result(
            verifier@,
            certificate@,
            now,
            host_bytes(hostname),
            result_view(r),
        );
    }
    r
}

/// Whether the key has the length that the decoder for the algorithm takes.
pub(crate) fn key_has_length(algorithm: SignatureAlgorithm, key: &[u8]) -> (r: bool)
    ensures
        r == key_fits(algorithm, key@),
{
    algorithm != SignatureAlgorithm::Ed25519 || key.len() == 32
}

/// Whether the check of the pair, if it gets as far as the signature, has a key of
/// the length that its decoder takes.
fn pair_key_fits(
    verifier: &CertificateEntryRef,
    certificate: &CertificateEntryRef,
    now: Option<u64>,
    hostname: Option<&str>,
) -> (r: bool)
    ensures
        r == pair_fits(verifier@, certificate@, now, host_bytes(hostname)),
{
    match examine_certificate(verifier, certificate, now, hostname) {
        Ok(signed) => match identify_algorithm(&signed.algorithm) {
            Some(algorithm) => key_has_length(algorithm, signed.key),
            None => true,
        },
        Err(_) => true,
    }
}

/// Verify a certificate by the certificate of its issuer. `None` where the
/// signature is to be checked with a key whose length its decoder does not take.
pub fn try_verify_certificate_with<B: RsaBackend>(
    verifier: &CertificateEntryRef,
    certificate: &CertificateEntryRef,
    now: Option<u64>,
    hostname: Option<&str>,
) -> (r: Option<Result<HostnameResult, TlsError>>)
    ensures
        r is Some <==> pair_fits(verifier@, certificate@, now, host_bytes(hostname)),
        r matches Some(result) ==> can_result::<B>(
            verifier@,
            certificate@,
            now,
            host_bytes(hostname),
            result_view(result),
        ),
{
    if pair_key_fits(verifier, certificate, now, hostname) {
        Some(verify_certificate_with::<B>(verifier, certificate, now, hostname))
    } else {
        None
    }
}

/// Verify a certificate by the certificate of its issuer, with RSA in software.
/// `None` where the signature is to be checked with a key whose length its
/// decoder does not take.
pub fn try_verify_certificate(
    verifier: &CertificateEntryRef,
    certificate: &CertificateEntryRef,
    now: Option<u64>,
    hostname: Option<&str>,
) -> (r: Option<Result<HostnameResult, TlsError>>)
    ensures
        r is Some <==> pair_fits(verifier@, certificate@, now, host_bytes(hostname)),
        r matches Some(result) ==> result_view(result) == software_result(
            verifier@,
            certificate@,
            now,
            host_bytes(hostname),
        ),
{
    if pair_key_fits(verifier, certificate, now, hostname) {
        Some(verify_certificate(verifier, certificate, now, hostname))
    } else {
        None
    }
}

/// A server's signature over the handshake.
#[derive(Clone, Copy)]
pub struct CertificateVerifyRef<'a> {
    pub signature_scheme: SignatureScheme,
    pub signature: &'a [u8],
}

/// The public key in the first entry of a certificate list.
pub open spec fn leaf_key(entries: Seq<EntryView>) -> Result<Seq<u8>, TlsError> {
    if entries.len() == 0 {
        Err(TlsError::DecodeError)
    } else {
        match entries[0] {
            EntryView::RawPublicKey(_) => Err(TlsError::DecodeError),
            EntryView::X509(bytes) => match certificate(bytes) {
                Some(cert) => match cert.tbs.public_key {
                    Some(key) => Ok(key),
                    None => Err(TlsError::DecodeError),
                },
                None => Err(TlsError::DecodeError),
            },
        }
    }
}

/// What the status of a signature over the handshake makes of it.
pub open spec fn handshake_outcome(status: SignatureStatus) -> Result<(), TlsError> {
    match status {
        SignatureStatus::Unsupported => Err(TlsError::InvalidSignatureScheme),
        SignatureStatus::BadKey => Err(TlsError::DecodeError),
        SignatureStatus::BadSignature => Err(TlsError::DecodeError),
        SignatureStatus::Mismatch => Err(TlsError::InvalidSignature),
        SignatureStatus::Valid => Ok(()),
    }
}

/// If the check of a signature over the handshake gets as far as the key, then
/// the key for Ed25519 has the length that its decoder takes, and the key for PSS
/// with SHA-256 can be decoded.
pub open spec fn handshake_fits<B: RsaBackend>(
    entries: Seq<EntryView>,
    scheme: SignatureScheme,
) -> bool {
    leaf_key(entries) matches Ok(key) ==> (scheme_algorithm(scheme) matches Some(algorithm) ==> {
        &&& key_fits(algorithm, key)
        &&& algorithm == SignatureAlgorithm::RsaPss(HashAlgorithm::Sha256) ==> B::takes_key(
            HashAlgorithm::Sha256,
            key,
        )
    })
}

/// The verification of a signature over the handshake can end with `r`.
pub open spec fn can_handshake_result<B: RsaBackend>(
    message: Seq<u8>,
    entries: Seq<EntryView>,
    scheme: SignatureScheme,
    signature: Seq<u8>,
    r: Result<(), TlsError>,
) -> bool {
    match leaf_key(entries) {
        Err(e) => r == Err::<(), TlsError>(e),
        Ok(key) => match scheme_algorithm(scheme) {
            None => r == Err::<(), TlsError>(TlsError::InvalidSignatureScheme),
            Some(algorithm) => exists|status: SignatureStatus|
                #[trigger] can_have_status::<B>(
                    algorithm,
                    key,
                    message,
                    Some(signature),
                    status,
                ) && r == handshake_outcome(status),
        },
    }
}

/// What the verification of a signature over the handshake ends with where RSA is
/// verified in software.
pub open spec fn handshake_result(
    message: Seq<u8>,
    entries: Seq<EntryView>,
    scheme: SignatureScheme,
    signature: Seq<u8>,
) -> Result<(), TlsError> {
    match leaf_key(entries) {
        Err(e) => Err(e),
        Ok(key) => match scheme_algorithm(scheme) {
            None => Err(TlsError::InvalidSignatureScheme),
            Some(algorithm) => handshake_outcome(
                software_status(algorithm, key, message, Some(signature)),
            ),
        },
    }
}

/// With RSA in software, the verification of a signature over the handshake has
/// one result.
pub proof fn lemma_handshake_result(
    message: Seq<u8>,
    entries: Seq<EntryView>,
    scheme: SignatureScheme,
    signature: Seq<u8>,
    r: Result<(), TlsError>,
)
    ensures
        can_handshake_result::<SoftwareRsa>(message, entries, scheme, signature, r) <==> r
            == handshake_result(message, entries, scheme, signature),
{
    if let Ok(key) = leaf_key(entries) {
        if let Some(a) = scheme_algorithm(scheme) {
            assert forall|status: SignatureStatus| #[trigger]
                can_have_status::<SoftwareRsa>(
                    a,
                    key,
                    message,
                    Some(signature),
                    status,
                ) <==> status == software_status(a, key, message, Some(signature)) by {
                lemma_software_status(a, key, message, Some(signature), status);
            }
            assert(can_have_status::<SoftwareRsa>(
                a,
                key,
                message,
                Some(signature),
                software_status(a, key, message, Some(signature)),
            ));
        }
    }
}

/// The public key in the first entry of a certificate list.
fn read_leaf_key<'a>(certificate: &CertificateRef<'a>) -> (r: Result<&'a [u8], TlsError>)
    ensures
        match r {
            Ok(key) => leaf_key(certificate@) == Ok::<Seq<u8>, TlsError>(key@),
            Err(e) => leaf_key(certificate@) == Err::<Seq<u8>, TlsError>(e),
        },
{
    if certificate.entries.len() == 0 {
        return Err(TlsError::DecodeError);
    }
    match certificate.entries[0] {
        CertificateEntryRef::RawPublicKey(_) => Err(TlsError::DecodeError),
        CertificateEntryRef::X509(bytes) => match DecodedCertificate::from_der(bytes) {
            Ok(decoded) => match decoded.tbs_certificate.public_key {
                Some(key) => Ok(key),
                None => Err(TlsError::DecodeError),
            },
            Err(e) => Err(e),
        },
    }
}

/// What the status of a signature over the handshake makes of it.
pub fn conclude_handshake(status: SignatureStatus) -> (r: Result<(), TlsError>)
    ensures
        r == handshake_outcome(status),
{
    match status {
        SignatureStatus::Unsupported => Err(TlsError::InvalidSignatureScheme),
        SignatureStatus::BadKey => Err(TlsError::DecodeError),
        SignatureStatus::BadSignature => Err(TlsError::DecodeError),
        SignatureStatus::Mismatch => Err(TlsError::InvalidSignature),
        SignatureStatus::Valid => Ok(()),
    }
}

/// Verify a signature by the key in the first certificate of a list.
pub fn verify_signature_with<B: RsaBackend>(
    message: &[u8],
    certificate: &CertificateRef,
    verify: &CertificateVerifyRef,
) -> (r: Result<(), TlsError>)
    requires
        handshake_fits::<B>(certificate@, verify.signature_scheme),
    ensures
        can_handshake_result::<B>(
            message@,
            certificate@,
            verify.signature_scheme,
            verify.signature@,
            r,
        ),
{
    let public_key: &[u8] = match read_leaf_key(certificate) {
        Ok(public_key) => public_key,
        Err(e) => {
            return Err(e);
        },
    };
    match algorithm_of_scheme(verify.signature_scheme) {
        Some(algorithm) => {
            let status: SignatureStatus = check_signature::<B>(
                algorithm,
                public_key,
                message,
                Some(verify.signature),
            );
            conclude_handshake(status)
        },
        None => Err(TlsError::InvalidSignatureScheme),
    }
}

/// Verify a signature by the key in the first certificate of a list, with RSA in
/// software.
pub fn verify_signature(
    message: &[u8],
    certificate: &CertificateRef,
    verify: &CertificateVerifyRef,
) -> (r: Result<(), TlsError>)
    requires
        handshake_fits::<SoftwareRsa>(certificate@, verify.signature_scheme),
    ensures
        r == handshake_result(
            message@,
            certificate@,
            verify.signature_scheme,
            verify.signature@,
        ),
{
    let r: Result<(), TlsError> = verify_signature_with::<SoftwareRsa>(
        message,
        certificate,
        verify,
    );
    proof {
        lemma_handshake_result(
            message@,
            certificate@,
            verify.signature_scheme,
            verify.signature@,
            r,
        );
    }
    r
}

/// Whether the key in the first certificate of a list is one that the scheme's
/// decoder takes.
pub(crate) fn handshake_key_fits<B: RsaBackend>(
    certificate: &CertificateRef,
    scheme: SignatureScheme,
) -> (r: bool)
    ensures
        r == handshake_fits::<B>(certificate@, scheme),
{
    match (read_leaf_key(certificate), algorithm_of_scheme(scheme)) {
        (Ok(key), Some(algorithm)) => key_has_length(algorithm, key) && (algorithm
            != SignatureAlgorithm::RsaPss(HashAlgorithm::Sha256) || B::accepts_key(
            HashAlgorithm::Sha256,
            key,
        )),
        _ => true,
    }
}

/// Verify a signature by the key in the first certificate of a list. `None` where
/// the key is one that the scheme's decoder does not take.
pub fn try_verify_signature_with<B: RsaBackend>(
    message: &[u8],
    certificate: &CertificateRef,
    verify: &CertificateVerifyRef,
) -> (r: Option<Result<(), TlsError>>)
    ensures
        r is Some <==> handshake_fits::<B>(certificate@, verify.signature_scheme),
        r matches Some(result) ==> can_handshake_result::<B>(
            message@,
            certificate@,
            verify.signature_scheme,
            verify.signature@,
            result,
        ),
{
    if handshake_key_fits::<B>(certificate, verify.signature_scheme) {
        Some(verify_signature_with::<B>(message, certificate, verify))
    } else {
        None
    }
}

/// Verify a signature by the key in the first certificate of a list, with RSA in
/// software. `None` where the key is one that the scheme's decoder does not take.
pub fn try_verify_signature(
    message: &[u8],
    certificate: &CertificateRef,
    verify: &CertificateVerifyRef,
) -> (r: Option<Result<(), TlsError>>)
    ensures
        r is Some <==> handshake_fits::<SoftwareRsa>(certificate@, verify.signature_scheme),
        r matches Some(result) ==> result == handshake_result(
            message@,
            certificate@,
            verify.signature_scheme,
            verify.signature@,
        ),
{
    if handshake_key_fits::<SoftwareRsa>(certificate, verify.signature_scheme) {
        Some(verify_signature(message, certificate, verify))
    } else {
        None
    }
}

} // verus!
