//! Exactly when a certificate, a list and a handshake are accepted, and what a
//! refusal says.

use vstd::prelude::*;
use vstd::utf8::valid_utf8;
use crate::chain::EntryView;
use crate::error::{ParseError, TlsError};
use crate::hostname::HostnameView;
use crate::rsa_backend::{HashAlgorithm, RsaBackend, SoftwareRsa};
use crate::san::san_match;
use crate::signature::{
    can_have_status, ecdsa_sha256_oid, ecdsa_sha384_oid, ed25519_oid, identified_algorithm, is_key,
    is_signature, is_supported, scheme_algorithm, status_with, verdict, SignatureAlgorithm,
    SignatureScheme, SignatureStatus,
};
use crate::verify::{
    can_handshake_result, can_result, can_sign_status, certificate_outcome, common_name, examined,
    handshake_fits, handshake_outcome, handshake_result, in_period, leaf_key,
    lemma_handshake_result, lemma_software_result, pair_fits, signed_key_fits, software_result,
    SignedView,
};
use crate::x509::{certificate, signed_bytes, AttributeView};

verus! {

/// The relative name gives a common name: its first attribute has the type 2.5.4.3.
pub open spec fn gives_common_name(attributes: Seq<AttributeView>) -> bool {
    attributes.len() > 0 && attributes[0].oid == seq![0x55u8, 0x04u8, 0x03u8]
}

/// The relative name is in order: it has a first attribute, and a common name is of
/// at most 64 bytes.
pub open spec fn is_relative_name(attributes: Seq<AttributeView>) -> bool {
    attributes.len() > 0 && (gives_common_name(attributes) ==> attributes[0].value.len() <= 64)
}

/// The relative name at `i` is the last one that gives a common name.
pub open spec fn gives_last_common_name(subject: Seq<Seq<AttributeView>>, i: int) -> bool {
    &&& 0 <= i < subject.len()
    &&& gives_common_name(subject[i])
    &&& forall|j: int| i < j < subject.len() ==> !gives_common_name(#[trigger] subject[j])
}

/// A subject of any length is read exactly: it is refused where one of its relative
/// names is not in order, and otherwise its common name is the last one that is
/// given, wherever it stands, if that is UTF-8.
pub proof fn law_common_name_exactly(subject: Seq<Seq<AttributeView>>)
    ensures
        match common_name(subject) {
            Err(e) => e == TlsError::ParseError(ParseError::InvalidData) && exists|i: int|
                0 <= i < subject.len() && !is_relative_name(#[trigger] subject[i]),
            Ok(cn) => {
                &&& forall|i: int| 0 <= i < subject.len() ==> is_relative_name(#[trigger] subject[i])
                &&& cn matches Some(v) ==> exists|i: int| #[trigger]
                    gives_last_common_name(subject, i) && subject[i][0].value == v && valid_utf8(v)
                &&& cn is None ==> forall|i: int| #[trigger]
                    gives_last_common_name(subject, i) ==> !valid_utf8(subject[i][0].value)
            },
        },
    decreases subject.len(),
{
    if subject.len() > 0 {
        let before = subject.drop_last();
        let n = subject.len() - 1;
        law_common_name_exactly(before);
        assert(subject[n] == subject.last());
        assert forall|i: int| 0 <= i < before.len() implies before[i] == #[trigger] subject[i] by {}
        match common_name(before) {
            Err(e) => {
                let i = choose|i: int| 0 <= i < before.len() && !is_relative_name(#[trigger] before[i]);
                assert(!is_relative_name(subject[i]));
            },
            Ok(cn) => {
                if gives_common_name(subject[n]) {
                    assert(gives_last_common_name(subject, n));
                    assert forall|i: int| #[trigger] gives_last_common_name(subject, i) implies i
                        == n by {
                        if i < n {
                            assert(gives_common_name(subject[n]));
                        }
                    }
                } else {
                    assert forall|i: int|
                        #[trigger] gives_last_common_name(subject, i) == gives_last_common_name(
                            before,
                            i,
                        ) by {
                        if gives_last_common_name(subject, i) {
                            assert(i != n);
                            assert forall|j: int| i < j < before.len() implies !gives_common_name(
                                #[trigger] before[j],
                            ) by {
                                assert(!gives_common_name(subject[j]));
                            }
                        }
                        if gives_last_common_name(before, i) {
                            assert forall|j: int| i < j < subject.len() implies !gives_common_name(
                                #[trigger] subject[j],
                            ) by {
                                if j < n {
                                    assert(!gives_common_name(before[j]));
                                }
                            }
                        }
                    }
                    if let Some(v) = cn {
                        let i = choose|i: int| #[trigger]
                            gives_last_common_name(before, i) && before[i][0].value == v
                                && valid_utf8(v);
                        assert(gives_last_common_name(subject, i));
                    }
                }
            },
        }
    }
}

/// A common name is found wherever it stands: relative names of other types, as
/// many as there are, may come before it and behind it.
pub proof fn law_common_name_is_found_anywhere(
    before: Seq<Seq<AttributeView>>,
    attributes: Seq<AttributeView>,
    behind: Seq<Seq<AttributeView>>,
)
    requires
        forall|i: int|
            0 <= i < before.len() ==> (#[trigger] before[i]).len() > 0 && !gives_common_name(before[i]),
        forall|i: int|
            0 <= i < behind.len() ==> (#[trigger] behind[i]).len() > 0 && !gives_common_name(behind[i]),
        gives_common_name(attributes),
        attributes[0].value.len() <= 64,
        valid_utf8(attributes[0].value),
    ensures
        common_name(before + seq![attributes] + behind) == Ok::<Option<Seq<u8>>, TlsError>(
            Some(attributes[0].value),
        ),
{
    let subject = before + seq![attributes] + behind;
    let n = before.len() as int;
    law_common_name_exactly(subject);
    assert(subject[n] == attributes);
    assert forall|i: int| 0 <= i < subject.len() && i != n implies (#[trigger] subject[i]).len() > 0
        && !gives_common_name(subject[i]) by {
        if i < n {
            assert(subject[i] == before[i]);
        } else {
            assert(subject[i] == behind[i - n - 1]);
        }
    }
    assert(gives_last_common_name(subject, n));
}

/// Relative names of other types do not matter: taking one out, wherever it stands,
/// changes nothing.
pub proof fn law_other_attributes_do_not_matter(
    before: Seq<Seq<AttributeView>>,
    other: Seq<AttributeView>,
    behind: Seq<Seq<AttributeView>>,
)
    requires
        other.len() > 0,
        !gives_common_name(other),
    ensures
        common_name(before + seq![other] + behind) == common_name(before + behind),
    decreases behind.len(),
{
    let with = before + seq![other] + behind;
    let without = before + behind;
    if behind.len() == 0 {
        assert(with.drop_last() =~= before);
        assert(without =~= before);
        assert(with.last() == other);
    } else {
        let rest = behind.drop_last();
        law_other_attributes_do_not_matter(before, other, rest);
        assert(with.drop_last() =~= before + seq![other] + rest);
        assert(without.drop_last() =~= before + rest);
        assert(with.last() == without.last());
    }
}

/// A check, and the error where it fails.
pub type Check = (bool, TlsError);

/// All checks pass.
pub open spec fn all_pass(checks: Seq<Check>) -> bool {
    forall|i: int| 0 <= i < checks.len() ==> (#[trigger] checks[i]).0
}

/// The check at `i` is the first one that fails.
pub open spec fn fails_at(checks: Seq<Check>, i: int) -> bool {
    &&& 0 <= i < checks.len()
    &&& !checks[i].0
    &&& forall|j: int| 0 <= j < i ==> (#[trigger] checks[j]).0
}

/// The first check that fails, fails with the error.
pub open spec fn first_failure(checks: Seq<Check>, e: TlsError) -> bool {
    exists|i: int| #[trigger] fails_at(checks, i) && checks[i].1 == e
}

/// One check is the first that fails.
proof fn lemma_fails_at(checks: Seq<Check>, i: int)
    requires
        fails_at(checks, i),
    ensures
        !all_pass(checks),
        forall|e: TlsError| #[trigger] first_failure(checks, e) <==> e == checks[i].1,
{
    assert(!checks[i].0);
    assert forall|j: int| #[trigger] fails_at(checks, j) implies j == i by {
        if j < i {
            assert(!checks[j].0);
        } else if i < j {
            assert(checks[i].0);
        }
    }
}

/// The error of the first check that fails, from `i` on.
spec fn error_from(checks: Seq<Check>, i: int) -> Option<TlsError>
    decreases checks.len() - i,
{
    if i >= checks.len() {
        None
    } else if !checks[i].0 {
        Some(checks[i].1)
    } else {
        error_from(checks, i + 1)
    }
}

proof fn lemma_error_from(checks: Seq<Check>, i: int)
    requires
        0 <= i <= checks.len(),
        forall|j: int| 0 <= j < i ==> (#[trigger] checks[j]).0,
    ensures
        error_from(checks, i) is None <==> all_pass(checks),
        forall|e: TlsError| #[trigger]
            first_failure(checks, e) <==> error_from(checks, i) == Some(e),
    decreases checks.len() - i,
{
    if i < checks.len() {
        if checks[i].0 {
            lemma_error_from(checks, i + 1);
        } else {
            lemma_fails_at(checks, i);
        }
    }
}

/// What is checked of a certificate before its signature is verified, in this
/// order: the certificate of its issuer can be read; it is a certificate itself;
/// it can be read; the issuer has a key; its subject is in order; its extensions
/// are; it is in its period, where the time is known; its signed bytes are there;
/// its algorithm is supported; the issuer's key is one for it; and so is the
/// signature.
#[verifier::opaque]
pub open spec fn certificate_checks<B: RsaBackend>(
    issuer: EntryView,
    subject: EntryView,
    now: Option<u64>,
    host: Option<Seq<u8>>,
) -> Seq<Check> {
    let authority = certificate(issuer->X509_0);
    let cert = certificate(subject->X509_0);
    let tbs = cert->Some_0.tbs;
    let key = authority->Some_0.tbs.public_key;
    let algorithm = identified_algorithm(cert->Some_0.signature_algorithm);
    let signature = cert->Some_0.signature;
    seq![
        (issuer is X509 && authority is Some, TlsError::DecodeError),
        (subject is X509, TlsError::InvalidCertificate),
        (cert is Some, TlsError::DecodeError),
        (key is Some, TlsError::DecodeError),
        (common_name(tbs.subject) is Ok, TlsError::ParseError(ParseError::InvalidData)),
        (
            tbs.extensions matches Some(bytes) ==> san_match(bytes, host) is Ok,
            TlsError::DecodeError,
        ),
        (
            now matches Some(t) ==> tbs.not_before.date_time().unix_time() <= t
                && t <= tbs.not_after.date_time().unix_time(),
            TlsError::InvalidCertificate,
        ),
        (signed_bytes(subject->X509_0) is Some, TlsError::DecodeError),
        (
            algorithm matches Some(a) && is_supported::<B>(a),
            TlsError::InvalidSignatureScheme,
        ),
        (is_key::<B>(algorithm->Some_0, key->Some_0), TlsError::DecodeError),
        (
            signature matches Some(s) && is_signature(algorithm->Some_0, s),
            TlsError::ParseError(ParseError::InvalidData),
        ),
    ]
}

/// The verdict on a certificate's signature, by the key of its issuer and over its
/// signed bytes, can be `verified`.
pub open spec fn certificate_verdict<B: RsaBackend>(
    issuer: EntryView,
    subject: EntryView,
    verified: bool,
) -> bool {
    let cert = certificate(subject->X509_0)->Some_0;
    verdict::<B>(
        identified_algorithm(cert.signature_algorithm)->Some_0,
        certificate(issuer->X509_0)->Some_0.tbs.public_key->Some_0,
        signed_bytes(subject->X509_0)->Some_0,
        cert.signature->Some_0,
        verified,
    )
}

/// What a certificate says about the host: its common name, and what its
/// alternative names say where it has extensions.
pub open spec fn are_names_of(names: HostnameView, subject: EntryView, host: Option<Seq<u8>>) -> bool {
    let tbs = certificate(subject->X509_0)->Some_0.tbs;
    &&& common_name(tbs.subject) == Ok::<Option<Seq<u8>>, TlsError>(names.common_name)
    &&& tbs.extensions is None ==> names.san_match is None
    &&& tbs.extensions matches Some(bytes) ==> san_match(bytes, host) == Ok::<Option<bool>, ()>(
        names.san_match,
    )
}

/// The verification of a certificate has these results and no others: the error of
/// the first check that fails; and where none does, what the certificate says about
/// the host for a signature that is verified, and `InvalidCertificate` for one that
/// is not.
#[verifier::rlimit(60)]
pub proof fn law_certificate_result_exactly<B: RsaBackend>(
    issuer: EntryView,
    subject: EntryView,
    now: Option<u64>,
    host: Option<Seq<u8>>,
    r: Result<HostnameView, TlsError>,
)
    ensures
        ({
            let checks = certificate_checks::<B>(issuer, subject, now, host);
            can_result::<B>(issuer, subject, now, host, r) <==> match r {
                Ok(names) => all_pass(checks) && certificate_verdict::<B>(issuer, subject, true)
                    && are_names_of(names, subject, host),
                Err(e) => first_failure(checks, e) || (all_pass(checks) && certificate_verdict::<B>(
                    issuer,
                    subject,
                    false,
                ) && e == TlsError::InvalidCertificate),
            }
        }),
{
    let checks = certificate_checks::<B>(issuer, subject, now, host);
    lemma_certificate_checks::<B>(issuer, subject, now, host);
    lemma_error_from(checks, 0);
    lemma_examined(issuer, subject, now, host);
    if let Ok(signed) = examined(issuer, subject, now, host) {
        lemma_signed::<B>(signed);
        assert(can_result::<B>(issuer, subject, now, host, r) == concluded::<B>(signed, r));
    }
}

/// What can come of a certificate whose signature is still to be checked.
proof fn lemma_signed<B: RsaBackend>(signed: SignedView)
    ensures
        forall|r: Result<HostnameView, TlsError>| #[trigger]
            concluded::<B>(signed, r) <==> match signature_error::<B>(signed) {
                Some(e) => r == Err::<HostnameView, TlsError>(e),
                None => {
                    ||| r == Ok::<HostnameView, TlsError>(signed.names) && signed_verdict::<B>(
                        signed,
                        true,
                    )
                    ||| r == Err::<HostnameView, TlsError>(TlsError::InvalidCertificate)
                        && signed_verdict::<B>(signed, false)
                },
            },
{
    match identified_algorithm(signed.algorithm) {
        Some(a) => {
            law_signature_status_exactly::<B>(a, signed.key, signed.message, signed.signature);
            assert forall|status: SignatureStatus| #[trigger]
                can_sign_status::<B>(signed, status) == can_have_status::<B>(
                a,
                signed.key,
                signed.message,
                signed.signature,
                status,
            ) by {}
            if !is_supported::<B>(a) {
                assert(can_sign_status::<B>(signed, SignatureStatus::Unsupported));
            } else if !is_key::<B>(a, signed.key) {
                assert(can_sign_status::<B>(signed, SignatureStatus::BadKey));
            } else if !(signed.signature matches Some(s) && is_signature(a, s)) {
                assert(can_sign_status::<B>(signed, SignatureStatus::BadSignature));
            } else {
                assert(can_sign_status::<B>(signed, SignatureStatus::Valid) == signed_verdict::<B>(
                    signed,
                    true,
                ));
                assert(can_sign_status::<B>(signed, SignatureStatus::Mismatch) == signed_verdict::<
                    B,
                >(signed, false));
            }
        },
        None => {
            assert(can_sign_status::<B>(signed, SignatureStatus::Unsupported));
        },
    }
}

/// The result can come of a certificate whose signature is still to be checked.
spec fn concluded<B: RsaBackend>(signed: SignedView, r: Result<HostnameView, TlsError>) -> bool {
    exists|status: SignatureStatus|
        #[trigger] can_sign_status::<B>(signed, status) && r == certificate_outcome(
            status,
            signed.names,
        )
}

/// What is wrong with a signature before it is verified.
spec fn signature_error<B: RsaBackend>(signed: SignedView) -> Option<TlsError> {
    match identified_algorithm(signed.algorithm) {
        None => Some(TlsError::InvalidSignatureScheme),
        Some(a) => if !is_supported::<B>(a) {
            Some(TlsError::InvalidSignatureScheme)
        } else if !is_key::<B>(a, signed.key) {
            Some(TlsError::DecodeError)
        } else if !(signed.signature matches Some(s) && is_signature(a, s)) {
            Some(TlsError::ParseError(ParseError::InvalidData))
        } else {
            None
        },
    }
}

spec fn signed_verdict<B: RsaBackend>(signed: SignedView, verified: bool) -> bool {
    verdict::<B>(
        identified_algorithm(signed.algorithm)->Some_0,
        signed.key,
        signed.message,
        signed.signature->Some_0,
        verified,
    )
}

/// The checks of a certificate, with what each of them says.
spec fn listed(
    c0: bool,
    c1: bool,
    c2: bool,
    c3: bool,
    c4: bool,
    c5: bool,
    c6: bool,
    c7: bool,
    c8: bool,
    c9: bool,
    c10: bool,
) -> Seq<Check> {
    seq![
        (c0, TlsError::DecodeError),
        (c1, TlsError::InvalidCertificate),
        (c2, TlsError::DecodeError),
        (c3, TlsError::DecodeError),
        (c4, TlsError::ParseError(ParseError::InvalidData)),
        (c5, TlsError::DecodeError),
        (c6, TlsError::InvalidCertificate),
        (c7, TlsError::DecodeError),
        (c8, TlsError::InvalidSignatureScheme),
        (c9, TlsError::DecodeError),
        (c10, TlsError::ParseError(ParseError::InvalidData)),
    ]
}

spec fn listed_error(
    c0: bool,
    c1: bool,
    c2: bool,
    c3: bool,
    c4: bool,
    c5: bool,
    c6: bool,
    c7: bool,
    c8: bool,
    c9: bool,
    c10: bool,
) -> Option<TlsError> {
    if !c0 {
        Some(TlsError::DecodeError)
    } else if !c1 {
        Some(TlsError::InvalidCertificate)
    } else if !(c2 && c3) {
        Some(TlsError::DecodeError)
    } else if !c4 {
        Some(TlsError::ParseError(ParseError::InvalidData))
    } else if !c5 {
        Some(TlsError::DecodeError)
    } else if !c6 {
        Some(TlsError::InvalidCertificate)
    } else if !c7 {
        Some(TlsError::DecodeError)
    } else if !c8 {
        Some(TlsError::InvalidSignatureScheme)
    } else if !c9 {
        Some(TlsError::DecodeError)
    } else if !c10 {
        Some(TlsError::ParseError(ParseError::InvalidData))
    } else {
        None
    }
}

#[verifier::rlimit(40)]
proof fn lemma_listed(
    c0: bool,
    c1: bool,
    c2: bool,
    c3: bool,
    c4: bool,
    c5: bool,
    c6: bool,
    c7: bool,
    c8: bool,
    c9: bool,
    c10: bool,
)
    ensures
        error_from(listed(c0, c1, c2, c3, c4, c5, c6, c7, c8, c9, c10), 0) == listed_error(
            c0,
            c1,
            c2,
            c3,
            c4,
            c5,
            c6,
            c7,
            c8,
            c9,
            c10,
        ),
{
    reveal_with_fuel(error_from, 12);
}

#[verifier::rlimit(40)]
proof fn lemma_listed_front(
    c0: bool,
    c1: bool,
    c2: bool,
    c3: bool,
    c4: bool,
    c5: bool,
    c6: bool,
    c7: bool,
    c8: bool,
    c9: bool,
    c10: bool,
)
    ensures
        error_from(listed(c0, c1, c2, c3, c4, c5, c6, c7, c8, c9, c10).take(8), 0) == listed_error(
            c0,
            c1,
            c2,
            c3,
            c4,
            c5,
            c6,
            c7,
            true,
            true,
            true,
        ),
{
    reveal_with_fuel(error_from, 9);
}

/// What the examination of a certificate ends with.
#[verifier::rlimit(60)]
proof fn lemma_examined(
    issuer: EntryView,
    subject: EntryView,
    now: Option<u64>,
    host: Option<Seq<u8>>,
)
    ensures
        ({
            let authority = certificate(issuer->X509_0);
            let cert = certificate(subject->X509_0);
            let tbs = cert->Some_0.tbs;
            let e = listed_error(
                issuer is X509 && authority is Some,
                subject is X509,
                cert is Some,
                authority->Some_0.tbs.public_key is Some,
                common_name(tbs.subject) is Ok,
                tbs.extensions matches Some(bytes) ==> san_match(bytes, host) is Ok,
                in_period(now, tbs.not_before, tbs.not_after),
                signed_bytes(subject->X509_0) is Some,
                true,
                true,
                true,
            );
            match examined(issuer, subject, now, host) {
                Err(error) => e == Some(error),
                Ok(signed) => {
                    &&& e is None
                    &&& signed.algorithm == cert->Some_0.signature_algorithm
                    &&& signed.key == authority->Some_0.tbs.public_key->Some_0
                    &&& signed.message == signed_bytes(subject->X509_0)->Some_0
                    &&& signed.signature == cert->Some_0.signature
                    &&& are_names_of(signed.names, subject, host)
                },
            }
        }),
{
    law_common_name_exactly(certificate(subject->X509_0)->Some_0.tbs.subject);
}

/// The checks of a certificate, one by one.
proof fn lemma_checks_are_listed<B: RsaBackend>(
    issuer: EntryView,
    subject: EntryView,
    now: Option<u64>,
    host: Option<Seq<u8>>,
)
    ensures
        ({
            let authority = certificate(issuer->X509_0);
            let cert = certificate(subject->X509_0);
            let tbs = cert->Some_0.tbs;
            let key = authority->Some_0.tbs.public_key;
            let algorithm = identified_algorithm(cert->Some_0.signature_algorithm);
            certificate_checks::<B>(issuer, subject, now, host) == listed(
                issuer is X509 && authority is Some,
                subject is X509,
                cert is Some,
                key is Some,
                common_name(tbs.subject) is Ok,
                tbs.extensions matches Some(bytes) ==> san_match(bytes, host) is Ok,
                in_period(now, tbs.not_before, tbs.not_after),
                signed_bytes(subject->X509_0) is Some,
                algorithm matches Some(a) && is_supported::<B>(a),
                is_key::<B>(algorithm->Some_0, key->Some_0),
                cert->Some_0.signature matches Some(s) && is_signature(algorithm->Some_0, s),
            )
        }),
{
    reveal(certificate_checks);
}

/// The checks before the signature are those that the examination makes.
#[verifier::rlimit(60)]
proof fn lemma_certificate_checks<B: RsaBackend>(
    issuer: EntryView,
    subject: EntryView,
    now: Option<u64>,
    host: Option<Seq<u8>>,
)
    ensures
        error_from(certificate_checks::<B>(issuer, subject, now, host), 0) == match examined(
            issuer,
            subject,
            now,
            host,
        ) {
            Err(e) => Some(e),
            Ok(signed) => signature_error::<B>(signed),
        },
        error_from(certificate_checks::<B>(issuer, subject, now, host).take(8), 0) == match examined(
            issuer,
            subject,
            now,
            host,
        ) {
            Err(e) => Some(e),
            Ok(signed) => None,
        },
{
    let authority = certificate(issuer->X509_0);
    let cert = certificate(subject->X509_0);
    let tbs = cert->Some_0.tbs;
    let key = authority->Some_0.tbs.public_key;
    let algorithm = identified_algorithm(cert->Some_0.signature_algorithm);
    lemma_checks_are_listed::<B>(issuer, subject, now, host);
    lemma_listed(
        issuer is X509 && authority is Some,
        subject is X509,
        cert is Some,
        key is Some,
        common_name(tbs.subject) is Ok,
        tbs.extensions matches Some(bytes) ==> san_match(bytes, host) is Ok,
        in_period(now, tbs.not_before, tbs.not_after),
        signed_bytes(subject->X509_0) is Some,
        algorithm matches Some(a) && is_supported::<B>(a),
        is_key::<B>(algorithm->Some_0, key->Some_0),
        cert->Some_0.signature matches Some(s) && is_signature(algorithm->Some_0, s),
    );
    lemma_listed_front(
        issuer is X509 && authority is Some,
        subject is X509,
        cert is Some,
        key is Some,
        common_name(tbs.subject) is Ok,
        tbs.extensions matches Some(bytes) ==> san_match(bytes, host) is Ok,
        in_period(now, tbs.not_before, tbs.not_after),
        signed_bytes(subject->X509_0) is Some,
        algorithm matches Some(a) && is_supported::<B>(a),
        is_key::<B>(algorithm->Some_0, key->Some_0),
        cert->Some_0.signature matches Some(s) && is_signature(algorithm->Some_0, s),
    );
    lemma_examined(issuer, subject, now, host);
}

/// The examination of a certificate ends with the first of the checks that fails,
/// up to those of the signature; and where none does, with the algorithm and the
/// signature of the certificate, the key of its issuer, its signed bytes and its
/// names.
pub proof fn law_examination_exactly(
    issuer: EntryView,
    subject: EntryView,
    now: Option<u64>,
    host: Option<Seq<u8>>,
)
    ensures
        ({
            let checks = certificate_checks::<SoftwareRsa>(issuer, subject, now, host).take(8);
            let cert = certificate(subject->X509_0);
            match examined(issuer, subject, now, host) {
                Err(e) => first_failure(checks, e),
                Ok(signed) => {
                    &&& all_pass(checks)
                    &&& signed.algorithm == cert->Some_0.signature_algorithm
                    &&& signed.key == certificate(issuer->X509_0)->Some_0.tbs.public_key->Some_0
                    &&& signed.message == signed_bytes(subject->X509_0)->Some_0
                    &&& signed.signature == cert->Some_0.signature
                    &&& are_names_of(signed.names, subject, host)
                },
            }
        }),
{
    lemma_certificate_checks::<SoftwareRsa>(issuer, subject, now, host);
    lemma_error_from(certificate_checks::<SoftwareRsa>(issuer, subject, now, host).take(8), 0);
    lemma_examined(issuer, subject, now, host);
}

/// A signature has these statuses and no others: the first thing that is wrong with
/// the algorithm, the key and the form of the signature, in this order; and where
/// nothing is, what the verdict on it says.
pub proof fn law_signature_status_exactly<B: RsaBackend>(
    a: SignatureAlgorithm,
    key: Seq<u8>,
    message: Seq<u8>,
    signature: Option<Seq<u8>>,
)
    ensures
        forall|status: SignatureStatus| #[trigger]
            can_have_status::<B>(a, key, message, signature, status) <==> if !is_supported::<B>(a) {
                status is Unsupported
            } else if !is_key::<B>(a, key) {
                status is BadKey
            } else if !(signature matches Some(s) && is_signature(a, s)) {
                status is BadSignature
            } else {
                ||| status is Valid && verdict::<B>(a, key, message, signature->Some_0, true)
                ||| status is Mismatch && verdict::<B>(a, key, message, signature->Some_0, false)
            },
{
    let if_true = status_with::<B>(a, key, signature, true);
    let if_false = status_with::<B>(a, key, signature, false);
    assert(if_true == status_with::<B>(a, key, signature, true));
    assert(if_false == status_with::<B>(a, key, signature, false));
}

/// The public key in the first entry of a list, where that is a certificate.
#[verifier::opaque]
pub open spec fn first_key(entries: Seq<EntryView>) -> Option<Seq<u8>> {
    if entries.len() > 0 && entries[0] is X509 && certificate(entries[0]->X509_0) is Some {
        certificate(entries[0]->X509_0)->Some_0.tbs.public_key
    } else {
        None
    }
}

/// The key that a handshake is verified with is the one in the first entry, and a
/// list without one cannot be decoded.
pub proof fn law_first_key_counts(entries: Seq<EntryView>)
    ensures
        leaf_key(entries) == match first_key(entries) {
            Some(key) => Ok::<Seq<u8>, TlsError>(key),
            None => Err(TlsError::DecodeError),
        },
{
    reveal(first_key);
}

/// What is checked of a signature over the handshake before it is verified, in this
/// order: there is a key; the scheme is supported; the key is one for it; and so is
/// the signature.
#[verifier::opaque]
pub open spec fn handshake_checks<B: RsaBackend>(
    key: Option<Seq<u8>>,
    scheme: SignatureScheme,
    signature: Seq<u8>,
) -> Seq<Check> {
    let algorithm = scheme_algorithm(scheme);
    seq![
        (key is Some, TlsError::DecodeError),
        (
            algorithm matches Some(a) && is_supported::<B>(a),
            TlsError::InvalidSignatureScheme,
        ),
        (is_key::<B>(algorithm->Some_0, key->Some_0), TlsError::DecodeError),
        (is_signature(algorithm->Some_0, signature), TlsError::DecodeError),
    ]
}

/// The verification of a signature over the handshake has these results and no
/// others: the error of the first check that fails; and where none does, success
/// for a signature over the message that the first key verifies, and
/// `InvalidSignature` for one that it does not.
#[verifier::rlimit(40)]
pub proof fn law_handshake_result_exactly<B: RsaBackend>(
    message: Seq<u8>,
    entries: Seq<EntryView>,
    scheme: SignatureScheme,
    signature: Seq<u8>,
    r: Result<(), TlsError>,
)
    ensures
        ({
            let key = first_key(entries);
            let algorithm = scheme_algorithm(scheme);
            let checks = handshake_checks::<B>(key, scheme, signature);
            can_handshake_result::<B>(message, entries, scheme, signature, r) <==> match r {
                Ok(()) => all_pass(checks) && verdict::<B>(
                    algorithm->Some_0,
                    key->Some_0,
                    message,
                    signature,
                    true,
                ),
                Err(e) => first_failure(checks, e) || (all_pass(checks) && verdict::<B>(
                    algorithm->Some_0,
                    key->Some_0,
                    message,
                    signature,
                    false,
                ) && e == TlsError::InvalidSignature),
            }
        }),
{
    lemma_handshake_cases::<B>(message, entries, scheme, signature, r);
    lemma_cases_are_checks::<B>(message, first_key(entries), scheme, signature, r);
}

/// The result can come of the verification of a signature with the key.
spec fn handshake_cases<B: RsaBackend>(
    message: Seq<u8>,
    key: Option<Seq<u8>>,
    scheme: SignatureScheme,
    signature: Seq<u8>,
    r: Result<(), TlsError>,
) -> bool {
    match (key, scheme_algorithm(scheme)) {
        (None, _) => r == Err::<(), TlsError>(TlsError::DecodeError),
        (Some(k), None) => r == Err::<(), TlsError>(TlsError::InvalidSignatureScheme),
        (Some(k), Some(a)) => match handshake_error::<B>(a, k, signature) {
            Some(e) => r == Err::<(), TlsError>(e),
            None => {
                ||| r == Ok::<(), TlsError>(()) && verdict::<B>(a, k, message, signature, true)
                ||| r == Err::<(), TlsError>(TlsError::InvalidSignature) && verdict::<B>(
                    a,
                    k,
                    message,
                    signature,
                    false,
                )
            },
        },
    }
}

proof fn lemma_cases_are_checks<B: RsaBackend>(
    message: Seq<u8>,
    key: Option<Seq<u8>>,
    scheme: SignatureScheme,
    signature: Seq<u8>,
    r: Result<(), TlsError>,
)
    ensures
        ({
            let algorithm = scheme_algorithm(scheme);
            let checks = handshake_checks::<B>(key, scheme, signature);
            handshake_cases::<B>(message, key, scheme, signature, r) <==> match r {
                Ok(()) => all_pass(checks) && verdict::<B>(
                    algorithm->Some_0,
                    key->Some_0,
                    message,
                    signature,
                    true,
                ),
                Err(e) => first_failure(checks, e) || (all_pass(checks) && verdict::<B>(
                    algorithm->Some_0,
                    key->Some_0,
                    message,
                    signature,
                    false,
                ) && e == TlsError::InvalidSignature),
            }
        }),
{
    let checks = handshake_checks::<B>(key, scheme, signature);
    lemma_error_from(checks, 0);
    lemma_handshake_checks::<B>(key, scheme, signature);
    if let Ok(unit) = r {
        assert(unit == ());
        assert(r == Ok::<(), TlsError>(()));
    }
}

/// What can come of the verification of a signature over the handshake.
#[verifier::rlimit(40)]
proof fn lemma_handshake_cases<B: RsaBackend>(
    message: Seq<u8>,
    entries: Seq<EntryView>,
    scheme: SignatureScheme,
    signature: Seq<u8>,
    r: Result<(), TlsError>,
)
    ensures
        can_handshake_result::<B>(message, entries, scheme, signature, r) <==> handshake_cases::<B>(
            message,
            first_key(entries),
            scheme,
            signature,
            r,
        ),
{
    law_first_key_counts(entries);
    if let Ok(key) = leaf_key(entries) {
        if let Some(a) = scheme_algorithm(scheme) {
            lemma_concluded_handshake::<B>(a, key, message, signature);
            assert(can_handshake_result::<B>(message, entries, scheme, signature, r)
                == concluded_handshake::<B>(a, key, message, signature, r));
        }
    }
}

/// The result can come of the check of a signature over the handshake.
spec fn concluded_handshake<B: RsaBackend>(
    a: SignatureAlgorithm,
    key: Seq<u8>,
    message: Seq<u8>,
    signature: Seq<u8>,
    r: Result<(), TlsError>,
) -> bool {
    exists|status: SignatureStatus|
        #[trigger] can_have_status::<B>(a, key, message, Some(signature), status) && r
            == handshake_outcome(status)
}

/// What is wrong with a signature over the handshake before it is verified.
spec fn handshake_error<B: RsaBackend>(
    a: SignatureAlgorithm,
    key: Seq<u8>,
    signature: Seq<u8>,
) -> Option<TlsError> {
    if !is_supported::<B>(a) {
        Some(TlsError::InvalidSignatureScheme)
    } else if !is_key::<B>(a, key) || !is_signature(a, signature) {
        Some(TlsError::DecodeError)
    } else {
        None
    }
}

/// What can come of the check of a signature over the handshake.
proof fn lemma_concluded_handshake<B: RsaBackend>(
    a: SignatureAlgorithm,
    key: Seq<u8>,
    message: Seq<u8>,
    signature: Seq<u8>,
)
    ensures
        forall|r: Result<(), TlsError>| #[trigger]
            concluded_handshake::<B>(a, key, message, signature, r) <==> match handshake_error::<B>(
                a,
                key,
                signature,
            ) {
                Some(e) => r == Err::<(), TlsError>(e),
                None => {
                    ||| r == Ok::<(), TlsError>(()) && verdict::<B>(a, key, message, signature, true)
                    ||| r == Err::<(), TlsError>(TlsError::InvalidSignature) && verdict::<B>(
                        a,
                        key,
                        message,
                        signature,
                        false,
                    )
                },
            },
{
    let s = Some(signature);
    law_signature_status_exactly::<B>(a, key, message, s);
    if !is_supported::<B>(a) {
        assert(can_have_status::<B>(a, key, message, s, SignatureStatus::Unsupported));
    } else if !is_key::<B>(a, key) {
        assert(can_have_status::<B>(a, key, message, s, SignatureStatus::BadKey));
    } else if !is_signature(a, signature) {
        assert(can_have_status::<B>(a, key, message, s, SignatureStatus::BadSignature));
    } else {
        assert(can_have_status::<B>(a, key, message, s, SignatureStatus::Valid) == verdict::<B>(
            a,
            key,
            message,
            signature,
            true,
        ));
        assert(can_have_status::<B>(a, key, message, s, SignatureStatus::Mismatch) == verdict::<B>(
            a,
            key,
            message,
            signature,
            false,
        ));
    }
}

/// The first of four checks that fails.
proof fn lemma_four(checks: Seq<Check>)
    requires
        checks.len() == 4,
    ensures
        error_from(checks, 0) == if !checks[0].0 {
            Some(checks[0].1)
        } else if !checks[1].0 {
            Some(checks[1].1)
        } else if !checks[2].0 {
            Some(checks[2].1)
        } else if !checks[3].0 {
            Some(checks[3].1)
        } else {
            None
        },
{
    reveal_with_fuel(error_from, 5);
}

/// The checks before a signature over the handshake, one by one.
proof fn lemma_handshake_checks<B: RsaBackend>(
    key: Option<Seq<u8>>,
    scheme: SignatureScheme,
    signature: Seq<u8>,
)
    ensures
        error_from(handshake_checks::<B>(key, scheme, signature), 0) == match (
            key,
            scheme_algorithm(scheme),
        ) {
            (None, _) => Some(TlsError::DecodeError),
            (Some(k), None) => Some(TlsError::InvalidSignatureScheme),
            (Some(k), Some(a)) => handshake_error::<B>(a, k, signature),
        },
{
    reveal(handshake_checks);
    lemma_four(handshake_checks::<B>(key, scheme, signature));
}

/// With RSA in software, the verification of a certificate has the one result that
/// can come of it.
pub proof fn law_software_result_exactly(
    issuer: EntryView,
    subject: EntryView,
    now: Option<u64>,
    host: Option<Seq<u8>>,
    r: Result<HostnameView, TlsError>,
)
    ensures
        software_result(issuer, subject, now, host) == r <==> can_result::<SoftwareRsa>(
            issuer,
            subject,
            now,
            host,
            r,
        ),
{
    lemma_software_result(issuer, subject, now, host, r);
}

/// With RSA in software, the verification of a signature over the handshake has the
/// one result that can come of it.
pub proof fn law_software_handshake_exactly(
    message: Seq<u8>,
    entries: Seq<EntryView>,
    scheme: SignatureScheme,
    signature: Seq<u8>,
    r: Result<(), TlsError>,
)
    ensures
        handshake_result(message, entries, scheme, signature) == r <==> can_handshake_result::<
            SoftwareRsa,
        >(message, entries, scheme, signature, r),
{
    lemma_handshake_result(message, entries, scheme, signature, r);
}

/// The key of an issuer stops an attempt exactly where all that comes before the
/// signature is in order, the signature is one with Ed25519, and the key is not of
/// 32 bytes.
#[verifier::rlimit(40)]
pub proof fn law_pair_fits_exactly(
    issuer: EntryView,
    subject: EntryView,
    now: Option<u64>,
    host: Option<Seq<u8>>,
)
    ensures
        pair_fits(issuer, subject, now, host) <==> !{
            &&& all_pass(certificate_checks::<SoftwareRsa>(issuer, subject, now, host).take(8))
            &&& certificate(subject->X509_0)->Some_0.signature_algorithm.parameters is None
            &&& certificate(subject->X509_0)->Some_0.signature_algorithm.oid == seq![
                0x2bu8,
                0x65u8,
                0x70u8,
            ]
            &&& certificate(issuer->X509_0)->Some_0.tbs.public_key->Some_0.len() != 32
        },
{
    law_examination_exactly(issuer, subject, now, host);
    lemma_error_from(certificate_checks::<SoftwareRsa>(issuer, subject, now, host).take(8), 0);
    if let Ok(signed) = examined(issuer, subject, now, host) {
        lemma_signed_key_fits(signed);
    }
}

/// The key stops an attempt exactly where it is not of 32 bytes for Ed25519.
proof fn lemma_signed_key_fits(signed: SignedView)
    ensures
        signed_key_fits(signed) <==> !{
            &&& signed.algorithm.parameters is None
            &&& signed.algorithm.oid == seq![0x2bu8, 0x65u8, 0x70u8]
            &&& signed.key.len() != 32
        },
{
    assert(seq![0x2bu8, 0x65u8, 0x70u8] == ed25519_oid());
    assert(ed25519_oid().len() == 3);
    assert(ecdsa_sha256_oid().len() == 8);
    assert(ecdsa_sha384_oid().len() == 8);
}

/// The key of a server stops an attempt exactly where the first entry is a
/// certificate with a key, and that key is not of 32 bytes for Ed25519, or cannot be
/// decoded for PSS with SHA-256.
#[verifier::rlimit(40)]
pub proof fn law_handshake_fits_exactly<B: RsaBackend>(
    entries: Seq<EntryView>,
    scheme: SignatureScheme,
)
    ensures
        handshake_fits::<B>(entries, scheme) <==> !(first_key(entries) matches Some(key) && {
            ||| scheme is Ed25519 && key.len() != 32
            ||| scheme is RsaPssRsaeSha256 && !B::takes_key(HashAlgorithm::Sha256, key)
        }),
{
    law_first_key_counts(entries);
}

} // verus!
