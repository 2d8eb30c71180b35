//! The verifier of a handshake: first the server's certificates, then its
//! signature.

use vstd::prelude::*;
use vstd::string::StringSliceAdditionalSpecFns;
use core::marker::PhantomData;
use crate::buffers::{
    message_as_slice, message_bytes, message_extend, message_new, message_resize, name_as_str,
    name_from_str,
};
use crate::chain::{CertificateChain, CertificateEntryRef, CertificateRef, EntryView};
use crate::crypto::{sha256, sha256_digest, sha384, sha384_digest};
use crate::error::TlsError;
use crate::hostname::{HostnameResult, HostnameView};
use crate::rsa_backend::{RsaBackend, SoftwareRsa};
use crate::san::host_bytes;
use crate::signature::{identified_algorithm, identify_algorithm, key_fits, SignatureScheme};
use crate::verify::{
    can_handshake_result, can_result, handshake_fits, handshake_key_fits, handshake_result,
    key_has_length, lemma_handshake_result, optional_name, pair_fits, result_view,
    try_verify_certificate_with, verify_signature_with, CertificateVerifyRef,
};
use crate::x509::{certificate, DecodedCertificate};

verus! {

/// A source of the time. Nothing is asked of the answers.
pub trait TlsClock {
    /// The seconds since the start of 1970, where they are known.
    fn now() -> Option<u64>;
}

/// A cipher suite, as far as its hash goes. Nothing is asked of the digests.
pub trait TlsCipherSuite {
    /// The state of the hash over a handshake.
    type Hash;

    /// The digest of what was hashed so far.
    fn digest(transcript: &Self::Hash) -> Vec<u8>;
}

/// The cipher suite can give the digest for the transcript.
pub open spec fn can_digest<CipherSuite: TlsCipherSuite>(
    transcript: &CipherSuite::Hash,
    digest: Seq<u8>,
) -> bool {
    exists|d: Vec<u8>|
        d@ == digest && #[trigger] call_ensures(CipherSuite::digest, (transcript,), d)
}

/// The bytes of a handshake, to be hashed when the digest is asked for.
pub struct Transcript {
    bytes: Vec<u8>,
}

impl View for Transcript {
    type V = Seq<u8>;

    closed spec fn view(&self) -> Seq<u8> {
        self.bytes@
    }
}

impl Transcript {
    /// A transcript of nothing.
    pub fn new() -> (r: Self)
        ensures
            r@ == Seq::<u8>::empty(),
    {
        Transcript { bytes: Vec::new() }
    }

    /// Add a message.
    pub fn update(&mut self, message: &[u8])
        ensures
            final(self)@ == old(self)@ + message@,
    {
        self.bytes.extend_from_slice(message);
        assert(self@ =~= old(self)@ + message@);
    }
}

/// TLS_AES_128_GCM_SHA256
pub struct Aes128GcmSha256;

impl TlsCipherSuite for Aes128GcmSha256 {
    type Hash = Transcript;

    fn digest(transcript: &Transcript) -> (r: Vec<u8>)
        ensures
            r@ == sha256(transcript@),
            r@.len() == 32,
    {
        sha256_digest(transcript.bytes.as_slice())
    }
}

/// TLS_AES_256_GCM_SHA384
pub struct Aes256GcmSha384;

impl TlsCipherSuite for Aes256GcmSha384 {
    type Hash = Transcript;

    fn digest(transcript: &Transcript) -> (r: Vec<u8>)
        ensures
            r@ == sha384(transcript@),
            r@.len() == 48,
    {
        sha384_digest(transcript.bytes.as_slice())
    }
}

/// The number of bytes that the entries of a list hold.
pub open spec fn entries_size(entries: Seq<EntryView>) -> int
    decreases entries.len(),
{
    if entries.len() == 0 {
        0
    } else {
        entries_size(entries.drop_last()) + match entries.last() {
            EntryView::X509(data) => data.len(),
            EntryView::RawPublicKey(data) => data.len(),
        }
    }
}

/// An entry of a certificate list that owns its bytes.
pub enum OwnedEntry {
    X509(Vec<u8>),
    RawPublicKey(Vec<u8>),
}

impl View for OwnedEntry {
    type V = EntryView;

    open spec fn view(&self) -> EntryView {
        match self {
            OwnedEntry::X509(data) => EntryView::X509(data@),
            OwnedEntry::RawPublicKey(data) => EntryView::RawPublicKey(data@),
        }
    }
}

/// A certificate list that owns its bytes, `N` of them at most.
pub struct OwnedCertificate<const N: usize> {
    entries: Vec<OwnedEntry>,
}

impl<const N: usize> View for OwnedCertificate<N> {
    type V = Seq<EntryView>;

    closed spec fn view(&self) -> Seq<EntryView> {
        Seq::new(self.entries@.len(), |i: int| self.entries@[i]@)
    }
}

impl<const N: usize> OwnedCertificate<N> {
    /// A copy of a list, where its bytes fit.
    pub fn copy_of(certificate: &CertificateRef) -> (r: Result<Self, TlsError>)
        ensures
            match r {
                Ok(copy) => entries_size(certificate@) <= N && copy@ == certificate@,
                Err(e) => entries_size(certificate@) > N && e == TlsError::OutOfMemory,
            },
    {
        let mut entries: Vec<OwnedEntry> = Vec::new();
        let mut left: usize = N;
        let mut i: usize = 0;
        let ghost all = certificate@;
        assert(all.take(0) =~= Seq::<EntryView>::empty());
        while i < certificate.entries.len()
            invariant
                i == entries@.len(),
                i <= certificate.entries@.len(),
                all == certificate@,
                left + entries_size(all.take(i as int)) == N,
                forall|j: int| 0 <= j < i ==> (#[trigger] entries@[j])@ == all[j],
            decreases certificate.entries@.len() - i,
        {
            let ghost upto = all.take(i + 1);
            proof {
                assert(upto.drop_last() =~= all.take(i as int));
                assert(upto.last() == certificate.entries@[i as int]@);
                lemma_entries_size(all, i + 1);
            }
            let entry: CertificateEntryRef = certificate.entries[i];
            let data: &[u8] = match entry {
                CertificateEntryRef::X509(data) => data,
                CertificateEntryRef::RawPublicKey(data) => data,
            };
            if data.len() > left {
                return Err(TlsError::OutOfMemory);
            }
            left = left - data.len();
            let copy: Vec<u8> = vstd::slice::slice_to_vec(data);
            assert(copy@ =~= data@);
            entries.push(
                match entry {
                    CertificateEntryRef::X509(_) => OwnedEntry::X509(copy),
                    CertificateEntryRef::RawPublicKey(_) => OwnedEntry::RawPublicKey(copy),
                },
            );
            i = i + 1;
        }
        let copy = OwnedCertificate { entries };
        assert(all.take(i as int) =~= all);
        assert(copy@ =~= all);
        Ok(copy)
    }

    /// The list, borrowed.
    pub fn borrowed(&self) -> (r: CertificateRef<'_>)
        ensures
            r@ == self@,
    {
        let mut entries: Vec<CertificateEntryRef<'_>> = Vec::new();
        let mut i: usize = 0;
        while i < self.entries.len()
            invariant
                i == entries@.len(),
                i <= self.entries@.len(),
                forall|j: int| 0 <= j < i ==> (#[trigger] entries@[j])@ == self@[j],
            decreases self.entries@.len() - i,
        {
            match &self.entries[i] {
                OwnedEntry::X509(data) => {
                    entries.push(CertificateEntryRef::X509(data.as_slice()));
                },
                OwnedEntry::RawPublicKey(data) => {
                    entries.push(CertificateEntryRef::RawPublicKey(data.as_slice()));
                },
            }
            i = i + 1;
        }
        let r = CertificateRef { entries };
        assert(r@ =~= self@);
        r
    }
}

/// Lists do not shrink when entries are added.
proof fn lemma_entries_size(entries: Seq<EntryView>, n: int)
    requires
        0 <= n <= entries.len(),
    ensures
        0 <= entries_size(entries.take(n)) <= entries_size(entries),
    decreases entries.len(),
{
    if n == entries.len() {
        assert(entries.take(n) =~= entries);
        if entries.len() > 0 {
            lemma_entries_size(entries.drop_last(), n - 1);
        }
    } else {
        assert(entries.drop_last().take(n) =~= entries.take(n));
        lemma_entries_size(entries.drop_last(), n);
    }
}

/// The verification of the pair can end with `step`, at a time that the clock can
/// show.
#[verifier::opaque]
pub open spec fn can_step<B: RsaBackend, C: TlsClock>(
    issuer: EntryView,
    subject: EntryView,
    host: Option<Seq<u8>>,
    step: Result<HostnameView, TlsError>,
) -> bool {
    exists|now: Option<u64>|
        call_ensures(C::now, (), now) && #[trigger] can_result::<B>(
            issuer,
            subject,
            now,
            host,
            step,
        )
}

/// The verification of a list can end with `r`.
///
/// The list is verified from its last entry on, each by the one before it and the
/// first by the issuer, and the clock is read for each. The first error ends it;
/// without one, it ends with what the first entry of the list says about the
/// host, or with `last` for an empty list.
pub open spec fn can_chain<B: RsaBackend, C: TlsClock>(
    issuer: EntryView,
    entries: Seq<EntryView>,
    host: Option<Seq<u8>>,
    last: HostnameView,
    r: Result<HostnameView, TlsError>,
) -> bool
    decreases entries.len(),
{
    if entries.len() == 0 {
        r == Ok::<HostnameView, TlsError>(last)
    } else {
        exists|step: Result<HostnameView, TlsError>|
            #[trigger] can_step::<B, C>(issuer, entries.last(), host, step) && match step {
                Err(e) => r == Err::<HostnameView, TlsError>(e),
                Ok(names) => can_chain::<B, C>(
                    entries.last(),
                    entries.drop_last(),
                    host,
                    names,
                    r,
                ),
            }
    }
}

/// Wherever the verification of a list gets as far as a signature, the key has
/// the length that its decoder takes.
pub open spec fn chain_fits<B: RsaBackend, C: TlsClock>(
    issuer: EntryView,
    entries: Seq<EntryView>,
    host: Option<Seq<u8>>,
) -> bool
    decreases entries.len(),
{
    entries.len() == 0 || {
        &&& forall|now: Option<u64>|
            call_ensures(C::now, (), now) ==> #[trigger] pair_fits(
                issuer,
                entries.last(),
                now,
                host,
            )
        &&& (exists|step: Result<HostnameView, TlsError>|
            #[trigger] can_step::<B, C>(issuer, entries.last(), host, step) && step is Ok)
            ==> chain_fits::<B, C>(entries.last(), entries.drop_last(), host)
    }
}

/// The attempt on the pair can end with `step`, at a time that the clock can show:
/// with nothing where the check gets as far as a signature whose key does not have
/// the length that its decoder takes, and otherwise as the verification does.
#[verifier::opaque]
pub open spec fn can_try_step<B: RsaBackend, C: TlsClock>(
    issuer: EntryView,
    subject: EntryView,
    host: Option<Seq<u8>>,
    step: Option<Result<HostnameView, TlsError>>,
) -> bool {
    exists|now: Option<u64>|
        call_ensures(C::now, (), now) && (step is Some <==> #[trigger] pair_fits(
            issuer,
            subject,
            now,
            host,
        )) && (step matches Some(result) ==> can_result::<B>(issuer, subject, now, host, result))
}

/// The attempt on a list can end with `r`: with nothing where it gets as far as a
/// signature whose key does not have the length that its decoder takes, and
/// otherwise as the verification does.
pub open spec fn can_try_chain<B: RsaBackend, C: TlsClock>(
    issuer: EntryView,
    entries: Seq<EntryView>,
    host: Option<Seq<u8>>,
    last: HostnameView,
    r: Option<Result<HostnameView, TlsError>>,
) -> bool
    decreases entries.len(),
{
    if entries.len() == 0 {
        r == Some(Ok::<HostnameView, TlsError>(last))
    } else {
        exists|step: Option<Result<HostnameView, TlsError>>|
            #[trigger] can_try_step::<B, C>(issuer, entries.last(), host, step) && match step {
                Some(Ok(names)) => can_try_chain::<B, C>(
                    entries.last(),
                    entries.drop_last(),
                    host,
                    names,
                    r,
                ),
                _ => r == step,
            }
    }
}

/// The key of the issuer has the length that the decoder for the subject's
/// signature algorithm takes, where there are both.
pub open spec fn keys_fit(issuer: EntryView, subject: EntryView) -> bool {
    match (issuer, subject) {
        (EntryView::X509(ca), EntryView::X509(bytes)) => match (
            certificate(ca),
            certificate(bytes),
        ) {
            (Some(i), Some(s)) => (i.tbs.public_key matches Some(key) ==> (identified_algorithm(
                s.signature_algorithm,
            ) matches Some(algorithm) ==> key_fits(algorithm, key))),
            _ => true,
        },
        _ => true,
    }
}

/// All keys in a chain have the length that their decoders take.
pub open spec fn chain_keys_fit(issuer: EntryView, entries: Seq<EntryView>) -> bool
    decreases entries.len(),
{
    entries.len() == 0 || (keys_fit(issuer, entries.last()) && chain_keys_fit(
        entries.last(),
        entries.drop_last(),
    ))
}

/// Keys of the right length are of the right length wherever they are used.
pub proof fn lemma_chain_keys_fit<B: RsaBackend, C: TlsClock>(
    issuer: EntryView,
    entries: Seq<EntryView>,
    host: Option<Seq<u8>>,
)
    requires
        chain_keys_fit(issuer, entries),
    ensures
        chain_fits::<B, C>(issuer, entries, host),
    decreases entries.len(),
{
    if entries.len() > 0 {
        lemma_chain_keys_fit::<B, C>(entries.last(), entries.drop_last(), host);
        assert forall|now: Option<u64>| #[trigger]
            pair_fits(issuer, entries.last(), now, host) by {
            assert(keys_fit(issuer, entries.last()));
        }
    }
}

/// What a verified chain makes of a request: the host, where one is asked for,
/// must be covered, and the list must fit in the memory kept for it.
pub open spec fn chain_outcome(
    chain: Result<HostnameView, TlsError>,
    host: Option<Seq<u8>>,
    room: bool,
) -> Result<(), TlsError> {
    match chain {
        Err(e) => Err(e),
        Ok(names) => if host matches Some(h) && !names.covers(h) {
            Err(TlsError::InvalidCertificate)
        } else if !room {
            Err(TlsError::OutOfMemory)
        } else {
            Ok(())
        },
    }
}

/// The text that separates signatures of servers from all others, with a NUL
/// behind it: "TLS 1.3, server CertificateVerify".
pub open spec fn context_string() -> Seq<u8> {
    seq![
        0x54u8, 0x4cu8, 0x53u8, 0x20u8, 0x31u8, 0x2eu8, 0x33u8, 0x2cu8, 0x20u8, 0x73u8, 0x65u8,
        0x72u8, 0x76u8, 0x65u8, 0x72u8, 0x20u8, 0x43u8, 0x65u8, 0x72u8, 0x74u8, 0x69u8, 0x66u8,
        0x69u8, 0x63u8, 0x61u8, 0x74u8, 0x65u8, 0x56u8, 0x65u8, 0x72u8, 0x69u8, 0x66u8, 0x79u8,
        0x00u8,
    ]
}

/// The message that a server signs: 64 spaces, the context string and the digest
/// of the transcript.
pub open spec fn signed_message(digest: Seq<u8>) -> Seq<u8> {
    Seq::new(64, |i: int| 0x20u8) + context_string() + digest
}

/// What the verification of a server's signature ends with where RSA is verified
/// in software, given the digest of the transcript.
pub open spec fn verifier_result(
    digest: Seq<u8>,
    entries: Seq<EntryView>,
    scheme: SignatureScheme,
    signature: Seq<u8>,
) -> Result<(), TlsError> {
    if digest.len() > 48 {
        Err(TlsError::EncodeError)
    } else {
        handshake_result(signed_message(digest), entries, scheme, signature)
    }
}

/// The verification of a server's signature can end with `r`, given the digest of
/// the transcript.
pub open spec fn can_verifier_result<B: RsaBackend>(
    digest: Seq<u8>,
    entries: Seq<EntryView>,
    scheme: SignatureScheme,
    signature: Seq<u8>,
    r: Result<(), TlsError>,
) -> bool {
    if digest.len() > 48 {
        r == Err::<(), TlsError>(TlsError::EncodeError)
    } else {
        can_handshake_result::<B>(signed_message(digest), entries, scheme, signature, r)
    }
}

/// The state of a verifier, as mathematical values.
pub struct VerifierView {
    /// The name that the server must have.
    pub host: Option<Seq<u8>>,
    /// The digest of the handshake up to the server's certificates.
    pub digest: Option<Seq<u8>>,
    /// The server's certificates.
    pub certificate: Option<Seq<EntryView>>,
}

/// A change of a verifier's state.
pub enum Step {
    /// A host name is asked for.
    Host(Seq<u8>),
    /// The certificates are accepted, and kept with the digest of the handshake.
    Keep(Seq<u8>, Seq<EntryView>),
    /// The digest is used to verify a signature.
    Use,
}

impl VerifierView {
    /// The state of a new verifier.
    pub open spec fn fresh() -> Self {
        VerifierView { host: None, digest: None, certificate: None }
    }

    /// The state after a change.
    pub open spec fn after(self, step: Step) -> Self {
        match step {
            Step::Host(name) => VerifierView { host: Some(name), ..self },
            Step::Keep(digest, entries) => VerifierView {
                host: self.host,
                digest: Some(digest),
                certificate: Some(entries),
            },
            Step::Use => VerifierView { digest: None, ..self },
        }
    }

    /// There is something to verify a signature with: a digest that fits in no
    /// message, or one that fits and a key that the scheme's decoder takes.
    pub open spec fn can_verify<B: RsaBackend>(self, scheme: SignatureScheme) -> bool {
        self.digest matches Some(d) && (d.len() <= 48 ==> handshake_fits::<B>(
            self.certificate->Some_0,
            scheme,
        ))
    }
}

/// A verifier of one handshake.
pub struct CertVerifier<CipherSuite, Clock, const CERT_SIZE: usize> where
    Clock: TlsClock,
    CipherSuite: TlsCipherSuite,
 {
    host: Option<heapless::String<64>>,
    certificate_digest: Option<Vec<u8>>,
    certificate: Option<OwnedCertificate<CERT_SIZE>>,
    clock: PhantomData<Clock>,
    suite: PhantomData<CipherSuite>,
}

impl<CipherSuite, Clock, const CERT_SIZE: usize> View for CertVerifier<
    CipherSuite,
    Clock,
    CERT_SIZE,
> where Clock: TlsClock, CipherSuite: TlsCipherSuite {
    type V = VerifierView;

    closed spec fn view(&self) -> VerifierView {
        VerifierView {
            host: optional_name(self.host),
            digest: match self.certificate_digest {
                Some(d) => Some(d@),
                None => None,
            },
            certificate: match self.certificate {
                Some(c) => Some(c@),
                None => None,
            },
        }
    }
}

impl<CipherSuite, Clock, const CERT_SIZE: usize> Default for CertVerifier<
    CipherSuite,
    Clock,
    CERT_SIZE,
> where Clock: TlsClock, CipherSuite: TlsCipherSuite {
    fn default() -> (r: Self)
        ensures
            r@ == VerifierView::fresh(),
    {
        Self::new()
    }
}

/// Whether the key of the issuer has the length that the decoder for the
/// subject's signature algorithm takes.
fn pair_keys_fit(issuer: &CertificateEntryRef, subject: &CertificateEntryRef) -> (r: bool)
    ensures
        r == keys_fit(issuer@, subject@),
{
    match (issuer, subject) {
        (CertificateEntryRef::X509(ca), CertificateEntryRef::X509(bytes)) => {
            match (DecodedCertificate::from_der(ca), DecodedCertificate::from_der(bytes)) {
                (Ok(i), Ok(s)) => match (
                    i.tbs_certificate.public_key,
                    identify_algorithm(&s.signature_algorithm),
                ) {
                    (Some(key), Some(algorithm)) => key_has_length(algorithm, key),
                    _ => true,
                },
                _ => true,
            }
        },
        _ => true,
    }
}

/// Whether all keys in a chain have the length that their decoders take.
fn check_chain_keys(ca: &CertificateEntryRef, cert: &CertificateRef) -> (r: bool)
    ensures
        r == chain_keys_fit(ca@, cert@),
{
    let mut chain = CertificateChain::new(ca, cert);
    loop
        invariant
            chain_keys_fit(ca@, cert@) == chain_keys_fit(chain.issuer(), chain.pending()),
        decreases chain.pending().len(),
    {
        match chain.next() {
            None => {
                return true;
            },
            Some((issuer, subject)) => {
                if !pair_keys_fit(issuer, subject) {
                    return false;
                }
            },
        }
    }
}

/// The view of the result of an attempt.
pub open spec fn attempt_view(r: Option<Result<HostnameResult, TlsError>>) -> Option<
    Result<HostnameView, TlsError>,
> {
    match r {
        Some(result) => Some(result_view(result)),
        None => None,
    }
}

/// A step that is not accepted ends the attempt on the list.
proof fn lemma_try_ends<B: RsaBackend, C: TlsClock>(
    issuer: EntryView,
    entries: Seq<EntryView>,
    host: Option<Seq<u8>>,
    last: HostnameView,
    step: Option<Result<HostnameView, TlsError>>,
)
    requires
        entries.len() > 0,
        can_try_step::<B, C>(issuer, entries.last(), host, step),
        !(step matches Some(Ok(_))),
    ensures
        can_try_chain::<B, C>(issuer, entries, host, last, step),
{
}

/// A step that is accepted leaves the rest of the list.
proof fn lemma_try_goes_on<B: RsaBackend, C: TlsClock>(
    issuer: EntryView,
    entries: Seq<EntryView>,
    host: Option<Seq<u8>>,
    last: HostnameView,
    names: HostnameView,
    r: Option<Result<HostnameView, TlsError>>,
)
    requires
        entries.len() > 0,
        can_try_step::<B, C>(
            issuer,
            entries.last(),
            host,
            Some(Ok::<HostnameView, TlsError>(names)),
        ),
        can_try_chain::<B, C>(entries.last(), entries.drop_last(), host, names, r),
    ensures
        can_try_chain::<B, C>(issuer, entries, host, last, r),
{
}

/// Where all keys that are used have the right length, an attempt is a
/// verification.
#[verifier::rlimit(40)]
pub proof fn lemma_attempt_is_verification<B: RsaBackend, C: TlsClock>(
    issuer: EntryView,
    entries: Seq<EntryView>,
    host: Option<Seq<u8>>,
    last: HostnameView,
    r: Option<Result<HostnameView, TlsError>>,
)
    requires
        chain_fits::<B, C>(issuer, entries, host),
        can_try_chain::<B, C>(issuer, entries, host, last, r),
    ensures
        r matches Some(result) && can_chain::<B, C>(issuer, entries, host, last, result),
    decreases entries.len(),
{
    if entries.len() > 0 {
        let subject = entries.last();
        let step = choose|step: Option<Result<HostnameView, TlsError>>|
            #[trigger] can_try_step::<B, C>(issuer, subject, host, step) && match step {
                Some(Ok(names)) => can_try_chain::<B, C>(
                    subject,
                    entries.drop_last(),
                    host,
                    names,
                    r,
                ),
                _ => r == step,
            };
        assert(step matches Some(result) && can_step::<B, C>(issuer, subject, host, result)) by {
            reveal(can_try_step);
            reveal(can_step);
        }
        if let Some(Ok(names)) = step {
            lemma_attempt_is_verification::<B, C>(subject, entries.drop_last(), host, names, r);
        }
    }
}

/// Where all keys in the chain have the right length, a verification is an
/// attempt.
#[verifier::rlimit(40)]
proof fn lemma_verification_is_attempt<B: RsaBackend, C: TlsClock>(
    issuer: EntryView,
    entries: Seq<EntryView>,
    host: Option<Seq<u8>>,
    last: HostnameView,
    r: Result<HostnameView, TlsError>,
)
    requires
        chain_keys_fit(issuer, entries),
        can_chain::<B, C>(issuer, entries, host, last, r),
    ensures
        can_try_chain::<B, C>(issuer, entries, host, last, Some(r)),
    decreases entries.len(),
{
    if entries.len() > 0 {
        let subject = entries.last();
        let step = choose|step: Result<HostnameView, TlsError>|
            #[trigger] can_step::<B, C>(issuer, subject, host, step) && match step {
                Err(e) => r == Err::<HostnameView, TlsError>(e),
                Ok(names) => can_chain::<B, C>(subject, entries.drop_last(), host, names, r),
            };
        assert(can_try_step::<B, C>(issuer, subject, host, Some(step))) by {
            reveal(can_try_step);
            reveal(can_step);
            let now = choose|now: Option<u64>|
                call_ensures(C::now, (), now) && #[trigger] can_result::<B>(
                    issuer,
                    subject,
                    now,
                    host,
                    step,
                );
            assert(keys_fit(issuer, subject));
            assert(pair_fits(issuer, subject, now, host));
        }
        if let Ok(names) = step {
            lemma_verification_is_attempt::<B, C>(subject, entries.drop_last(), host, names, r);
            lemma_try_goes_on::<B, C>(issuer, entries, host, last, names, Some(r));
        } else {
            lemma_try_ends::<B, C>(issuer, entries, host, last, Some(step));
        }
    }
}

/// Where all keys in the chain have the right length, what a verification makes of
/// a request is what an attempt makes of it.
proof fn lemma_outcome_of_attempt<B: RsaBackend, C: TlsClock>(
    issuer: EntryView,
    entries: Seq<EntryView>,
    host: Option<Seq<u8>>,
    room: bool,
    r: Result<(), TlsError>,
)
    requires
        chain_keys_fit(issuer, entries),
        exists|chain: Result<HostnameView, TlsError>|
            #[trigger] can_chain::<B, C>(issuer, entries, host, HostnameView::nothing(), chain) && r
                == chain_outcome(chain, host, room),
    ensures
        exists|chain: Option<Result<HostnameView, TlsError>>|
            #[trigger] can_try_chain::<B, C>(
                issuer,
                entries,
                host,
                HostnameView::nothing(),
                chain,
            ) && Some(r) == match chain {
                Some(c) => Some(chain_outcome(c, host, room)),
                None => None,
            },
{
    let chain = choose|chain: Result<HostnameView, TlsError>|
        #[trigger] can_chain::<B, C>(issuer, entries, host, HostnameView::nothing(), chain) && r
            == chain_outcome(chain, host, room);
    lemma_verification_is_attempt::<B, C>(issuer, entries, host, HostnameView::nothing(), chain);
}

/// Try one pair at the time that the clock shows.
fn try_step<B: RsaBackend, C: TlsClock>(
    issuer: &CertificateEntryRef,
    subject: &CertificateEntryRef,
    hostname: Option<&str>,
) -> (r: Option<Result<HostnameResult, TlsError>>)
    ensures
        can_try_step::<B, C>(issuer@, subject@, host_bytes(hostname), attempt_view(r)),
{
    let now: Option<u64> = C::now();
    assert(call_ensures(C::now, (), now));
    let r: Option<Result<HostnameResult, TlsError>> = try_verify_certificate_with::<B>(
        issuer,
        subject,
        now,
        hostname,
    );
    proof {
        reveal(can_try_step);
        assert(attempt_view(r) is Some <==> pair_fits(
            issuer@,
            subject@,
            now,
            host_bytes(hostname),
        ));
    }
    r
}

/// Try a list of certificates, from the one that the authority issued down to the
/// server's own.
#[verifier::rlimit(40)]
fn try_chain<B: RsaBackend, C: TlsClock>(
    authority: &CertificateEntryRef,
    cert: &CertificateRef,
    hostname: Option<&str>,
) -> (r: Option<Result<HostnameResult, TlsError>>)
    ensures
        can_try_chain::<B, C>(
            authority@,
            cert@,
            host_bytes(hostname),
            HostnameView::nothing(),
            attempt_view(r),
        ),
{
    let ghost host = host_bytes(hostname);
    let mut result = HostnameResult { common_name: None, san_match: None };
    let mut chain = CertificateChain::new(authority, cert);
    loop
        invariant
            host == host_bytes(hostname),
            forall|r: Option<Result<HostnameView, TlsError>>| #[trigger]
                can_try_chain::<B, C>(chain.issuer(), chain.pending(), host, result@, r)
                    ==> can_try_chain::<B, C>(
                    authority@,
                    cert@,
                    host,
                    HostnameView::nothing(),
                    r,
                ),
        decreases chain.pending().len(),
    {
        let ghost issuer = chain.issuer();
        let ghost entries = chain.pending();
        let ghost last = result@;
        let (p, q) = match chain.next() {
            Some(pair) => pair,
            None => {
                assert(can_try_chain::<B, C>(
                    issuer,
                    entries,
                    host,
                    last,
                    Some(Ok::<HostnameView, TlsError>(last)),
                ));
                return Some(Ok(result));
            },
        };
        match try_step::<B, C>(p, q, hostname) {
            Some(Ok(names)) => {
                result = names;
                proof {
                    assert forall|r: Option<Result<HostnameView, TlsError>>| #[trigger]
                        can_try_chain::<B, C>(
                            chain.issuer(),
                            chain.pending(),
                            host,
                            result@,
                            r,
                        ) implies can_try_chain::<B, C>(
                        authority@,
                        cert@,
                        host,
                        HostnameView::nothing(),
                        r,
                    ) by {
                        lemma_try_goes_on::<B, C>(issuer, entries, host, last, result@, r);
                    }
                }
            },
            Some(Err(e)) => {
                proof {
                    lemma_try_ends::<B, C>(
                        issuer,
                        entries,
                        host,
                        last,
                        Some(Err::<HostnameView, TlsError>(e)),
                    );
                }
                return Some(Err(e));
            },
            None => {
                proof {
                    lemma_try_ends::<B, C>(issuer, entries, host, last, None);
                }
                return None;
            },
        }
    }
}

/// The message that a server signs, where it fits in the message buffer.
pub fn build_signed_message(digest: &[u8]) -> (r: Result<heapless::Vec<u8, 146>, TlsError>)
    ensures
        match r {
            Ok(msg) => digest@.len() <= 48 && message_bytes(msg) == signed_message(digest@),
            Err(e) => digest@.len() > 48 && e == TlsError::EncodeError,
        },
{
    let ctx: [u8; 34] = [
        0x54, 0x4c, 0x53, 0x20, 0x31, 0x2e, 0x33, 0x2c, 0x20, 0x73, 0x65, 0x72, 0x76, 0x65, 0x72,
        0x20, 0x43, 0x65, 0x72, 0x74, 0x69, 0x66, 0x69, 0x63, 0x61, 0x74, 0x65, 0x56, 0x65, 0x72,
        0x69, 0x66, 0x79, 0x00,
    ];
    assert(ctx@ =~= context_string());
    let mut msg: heapless::Vec<u8, 146> = message_new();
    if !message_resize(&mut msg, 64, 0x20) {
        return Err(TlsError::EncodeError);
    }
    assert(message_bytes(msg) =~= Seq::new(64, |i: int| 0x20u8));
    if !message_extend(&mut msg, &ctx) || !message_extend(&mut msg, digest) {
        return Err(TlsError::EncodeError);
    }
    Ok(msg)
}

impl<CipherSuite, Clock, const CERT_SIZE: usize> CertVerifier<CipherSuite, Clock, CERT_SIZE> where
    Clock: TlsClock,
    CipherSuite: TlsCipherSuite,
 {
    #[verifier::type_invariant]
    spec fn well_formed(self) -> bool {
        self.certificate_digest is Some ==> self.certificate is Some
    }

    /// A verifier that asks for no host name.
    #[must_use]
    pub fn new() -> (r: Self)
        ensures
            r@ == VerifierView::fresh(),
    {
        CertVerifier {
            host: None,
            certificate_digest: None,
            certificate: None,
            clock: PhantomData,
            suite: PhantomData,
        }
    }

    /// Ask for a server with this name.
    pub fn set_hostname_verification(&mut self, hostname: &str) -> (r: Result<(), TlsError>)
        ensures
            match r {
                Ok(()) => hostname.spec_bytes().len() <= 64 && final(self)@ == old(self)@.after(
                    Step::Host(hostname.spec_bytes()),
                ),
                Err(e) => hostname.spec_bytes().len() > 64 && e == TlsError::InsufficientSpace
                    && final(self)@ == old(self)@,
            },
    {
        proof {
            use_type_invariant(&*self);
        }
        match name_from_str(hostname) {
            Some(name) => {
                self.host = Some(name);
                Ok(())
            },
            None => Err(TlsError::InsufficientSpace),
        }
    }

    /// The name that the server must have.
    fn hostname(&self) -> (r: Option<&str>)
        ensures
            host_bytes(r) == self@.host,
    {
        match &self.host {
            Some(host) => Some(name_as_str(host)),
            None => None,
        }
    }

    /// Accept a server whose chain was verified: its names must cover the host, and
    /// its certificates are kept with the digest of the transcript.
    fn accept(
        &mut self,
        names: &HostnameResult,
        transcript: &CipherSuite::Hash,
        cert: &CertificateRef,
    ) -> (r: Result<(), TlsError>)
        ensures
            r == chain_outcome(
                Ok::<HostnameView, TlsError>(names@),
                old(self)@.host,
                entries_size(cert@) <= CERT_SIZE,
            ),
            r is Err ==> final(self)@ == old(self)@,
            r is Ok ==> exists|digest: Seq<u8>| #[trigger]
                can_digest::<CipherSuite>(transcript, digest) && final(self)@ == old(self)@.after(
                    Step::Keep(digest, cert@),
                ),
    {
        if let Some(hostname) = self.hostname() {
            if !names.matches_hostname(hostname) {
                return Err(TlsError::InvalidCertificate);
            }
        }
        match OwnedCertificate::copy_of(cert) {
            Ok(copy) => {
                let digest: Vec<u8> = CipherSuite::digest(transcript);
                proof {
                    assert(call_ensures(CipherSuite::digest, (transcript,), digest));
                    assert(can_digest::<CipherSuite>(transcript, digest@));
                }
                self.certificate = Some(copy);
                self.certificate_digest = Some(digest);
                Ok(())
            },
            Err(e) => Err(e),
        }
    }

    /// Verify the server's certificates, and keep them with the digest of the
    /// transcript where they are in order.
    pub fn verify_certificate_with<B: RsaBackend>(
        &mut self,
        transcript: &CipherSuite::Hash,
        ca: &Option<CertificateEntryRef>,
        cert: CertificateRef,
    ) -> (r: Result<(), TlsError>)
        requires
            ca matches Some(authority) ==> chain_fits::<B, Clock>(
                authority@,
                cert@,
                old(self)@.host,
            ),
        ensures
            match ca {
                None => r == Err::<(), TlsError>(TlsError::Unimplemented),
                Some(authority) => exists|chain: Result<HostnameView, TlsError>|
                    #[trigger] can_chain::<B, Clock>(
                        authority@,
                        cert@,
                        old(self)@.host,
                        HostnameView::nothing(),
                        chain,
                    ) && r == chain_outcome(
                        chain,
                        old(self)@.host,
                        entries_size(cert@) <= CERT_SIZE,
                    ),
            },
            r is Err ==> final(self)@ == old(self)@,
            r is Ok ==> exists|digest: Seq<u8>| #[trigger]
                can_digest::<CipherSuite>(transcript, digest) && final(self)@ == old(self)@.after(
                    Step::Keep(digest, cert@),
                ),
    {
        let authority: &CertificateEntryRef = match ca {
            Some(authority) => authority,
            None => {
                return Err(TlsError::Unimplemented);
            },
        };
        let attempt: Option<Result<HostnameResult, TlsError>> = try_chain::<B, Clock>(
            authority,
            &cert,
            self.hostname(),
        );
        proof {
            lemma_attempt_is_verification::<B, Clock>(
                authority@,
                cert@,
                self@.host,
                HostnameView::nothing(),
                attempt_view(attempt),
            );
        }
        match attempt.unwrap() {
            Ok(names) => self.accept(&names, transcript, &cert),
            Err(e) => Err(e),
        }
    }

    /// Verify the server's certificates with RSA in software, and keep them with
    /// the digest of the transcript where they are in order.
    pub fn verify_certificate(
        &mut self,
        transcript: &CipherSuite::Hash,
        ca: &Option<CertificateEntryRef>,
        cert: CertificateRef,
    ) -> (r: Result<(), TlsError>)
        requires
            ca matches Some(authority) ==> chain_fits::<SoftwareRsa, Clock>(
                authority@,
                cert@,
                old(self)@.host,
            ),
        ensures
            match ca {
                None => r == Err::<(), TlsError>(TlsError::Unimplemented),
                Some(authority) => exists|chain: Result<HostnameView, TlsError>|
                    #[trigger] can_chain::<SoftwareRsa, Clock>(
                        authority@,
                        cert@,
                        old(self)@.host,
                        HostnameView::nothing(),
                        chain,
                    ) && r == chain_outcome(
                        chain,
                        old(self)@.host,
                        entries_size(cert@) <= CERT_SIZE,
                    ),
            },
            r is Err ==> final(self)@ == old(self)@,
            r is Ok ==> exists|digest: Seq<u8>| #[trigger]
                can_digest::<CipherSuite>(transcript, digest) && final(self)@ == old(self)@.after(
                    Step::Keep(digest, cert@),
                ),
    {
        self.verify_certificate_with::<SoftwareRsa>(transcript, ca, cert)
    }

    /// Verify the server's certificates. `None`, with nothing changed, where the
    /// verification gets as far as a signature whose key does not have the length
    /// that its decoder takes.
    pub fn try_verify_certificate_with<B: RsaBackend>(
        &mut self,
        transcript: &CipherSuite::Hash,
        ca: &Option<CertificateEntryRef>,
        cert: CertificateRef,
    ) -> (r: Option<Result<(), TlsError>>)
        ensures
            match ca {
                None => r == Some(Err::<(), TlsError>(TlsError::Unimplemented)),
                Some(authority) => exists|chain: Option<Result<HostnameView, TlsError>>|
                    #[trigger] can_try_chain::<B, Clock>(
                        authority@,
                        cert@,
                        old(self)@.host,
                        HostnameView::nothing(),
                        chain,
                    ) && r == match chain {
                        Some(c) => Some(
                            chain_outcome(c, old(self)@.host, entries_size(cert@) <= CERT_SIZE),
                        ),
                        None => None,
                    },
            },
            !(r matches Some(Ok(()))) ==> final(self)@ == old(self)@,
            r matches Some(Ok(())) ==> exists|digest: Seq<u8>| #[trigger]
                can_digest::<CipherSuite>(transcript, digest) && final(self)@ == old(self)@.after(
                    Step::Keep(digest, cert@),
                ),
    {
        if let Some(authority) = ca {
            if !check_chain_keys(authority, &cert) {
                // An earlier pair may be refused before the key is used.
                return match try_chain::<B, Clock>(authority, &cert, self.hostname()) {
                    Some(Ok(names)) => Some(self.accept(&names, transcript, &cert)),
                    Some(Err(e)) => Some(Err(e)),
                    None => None,
                };
            }
            proof {
                lemma_chain_keys_fit::<B, Clock>(authority@, cert@, self@.host);
            }
        }
        let ghost host = self@.host;
        let ghost entries = cert@;
        let r: Result<(), TlsError> = self.verify_certificate_with::<B>(transcript, ca, cert);
        proof {
            if let Some(authority) = ca {
                lemma_outcome_of_attempt::<B, Clock>(
                    authority@,
                    entries,
                    host,
                    entries_size(entries) <= CERT_SIZE,
                    r,
                );
            }
        }
        Some(r)
    }

    /// Verify the server's certificates with RSA in software. `None`, with nothing
    /// changed, where the verification gets as far as a signature whose key does
    /// not have the length that its decoder takes.
    pub fn try_verify_certificate(
        &mut self,
        transcript: &CipherSuite::Hash,
        ca: &Option<CertificateEntryRef>,
        cert: CertificateRef,
    ) -> (r: Option<Result<(), TlsError>>)
        ensures
            match ca {
                None => r == Some(Err::<(), TlsError>(TlsError::Unimplemented)),
                Some(authority) => exists|chain: Option<Result<HostnameView, TlsError>>|
                    #[trigger] can_try_chain::<SoftwareRsa, Clock>(
                        authority@,
                        cert@,
                        old(self)@.host,
                        HostnameView::nothing(),
                        chain,
                    ) && r == match chain {
                        Some(c) => Some(
                            chain_outcome(c, old(self)@.host, entries_size(cert@) <= CERT_SIZE),
                        ),
                        None => None,
                    },
            },
            !(r matches Some(Ok(()))) ==> final(self)@ == old(self)@,
            r matches Some(Ok(())) ==> exists|digest: Seq<u8>| #[trigger]
                can_digest::<CipherSuite>(transcript, digest) && final(self)@ == old(self)@.after(
                    Step::Keep(digest, cert@),
                ),
    {
        if let Some(authority) = ca {
            if !check_chain_keys(authority, &cert) {
                return self.try_verify_certificate_with::<SoftwareRsa>(transcript, ca, cert);
            }
            proof {
                lemma_chain_keys_fit::<SoftwareRsa, Clock>(authority@, cert@, self@.host);
            }
        }
        let ghost host = self@.host;
        let ghost entries = cert@;
        let r: Result<(), TlsError> = self.verify_certificate(transcript, ca, cert);
        proof {
            if let Some(authority) = ca {
                lemma_outcome_of_attempt::<SoftwareRsa, Clock>(
                    authority@,
                    entries,
                    host,
                    entries_size(entries) <= CERT_SIZE,
                    r,
                );
            }
        }
        Some(r)
    }

    /// Verify the server's signature over the digest that was kept, by the
    /// certificates that were kept. The digest is used up.
    pub fn verify_signature_with<B: RsaBackend>(&mut self, verify: CertificateVerifyRef) -> (r:
        Result<(), TlsError>)
        requires
            old(self)@.can_verify::<B>(verify.signature_scheme),
        ensures
            final(self)@ == old(self)@.after(Step::Use),
            can_verifier_result::<B>(
                old(self)@.digest->Some_0,
                old(self)@.certificate->Some_0,
                verify.signature_scheme,
                verify.signature@,
                r,
            ),
    {
        proof {
            use_type_invariant(&*self);
        }
        let built: Result<heapless::Vec<u8, 146>, TlsError> = build_signed_message(
            self.certificate_digest.as_ref().unwrap().as_slice(),
        );
        self.certificate_digest = None;
        let msg: heapless::Vec<u8, 146> = match built {
            Ok(msg) => msg,
            Err(e) => {
                return Err(e);
            },
        };
        let certificate: CertificateRef = self.certificate.as_ref().unwrap().borrowed();
        verify_signature_with::<B>(message_as_slice(&msg), &certificate, &verify)
    }

    /// Verify the server's signature with RSA in software. The digest is used up.
    pub fn verify_signature(&mut self, verify: CertificateVerifyRef) -> (r: Result<(), TlsError>)
        requires
            old(self)@.can_verify::<SoftwareRsa>(verify.signature_scheme),
        ensures
            final(self)@ == old(self)@.after(Step::Use),
            r == verifier_result(
                old(self)@.digest->Some_0,
                old(self)@.certificate->Some_0,
                verify.signature_scheme,
                verify.signature@,
            ),
    {
        let ghost digest = self@.digest->Some_0;
        let ghost entries = self@.certificate->Some_0;
        let r: Result<(), TlsError> = self.verify_signature_with::<SoftwareRsa>(verify);
        proof {
            lemma_handshake_result(
                signed_message(digest),
                entries,
                verify.signature_scheme,
                verify.signature@,
                r,
            );
        }
        r
    }

    /// Whether there is something to verify a signature with.
    fn signature_can_be_verified<B: RsaBackend>(&self, scheme: SignatureScheme) -> (r: bool)
        ensures
            r == self@.can_verify::<B>(scheme),
    {
        proof {
            use_type_invariant(self);
        }
        match (&self.certificate_digest, &self.certificate) {
            (Some(digest), Some(certificate)) => digest.len() > 48 || handshake_key_fits::<B>(
                &certificate.borrowed(),
                scheme,
            ),
            _ => false,
        }
    }

    /// Verify the server's signature. `None`, with nothing changed, where nothing
    /// was kept to verify it with, or the server's key is one that the scheme's
    /// decoder does not take.
    pub fn try_verify_signature_with<B: RsaBackend>(&mut self, verify: CertificateVerifyRef) -> (r:
        Option<Result<(), TlsError>>)
        ensures
            r is Some <==> old(self)@.can_verify::<B>(verify.signature_scheme),
            r is None ==> final(self)@ == old(self)@,
            r matches Some(result) ==> final(self)@ == old(self)@.after(Step::Use)
                && can_verifier_result::<B>(
                old(self)@.digest->Some_0,
                old(self)@.certificate->Some_0,
                verify.signature_scheme,
                verify.signature@,
                result,
            ),
    {
        if self.signature_can_be_verified::<B>(verify.signature_scheme) {
            Some(self.verify_signature_with::<B>(verify))
        } else {
            None
        }
    }

    /// Verify the server's signature with RSA in software. `None`, with nothing
    /// changed, where nothing was kept to verify it with, or the server's key is
    /// one that the scheme's decoder does not take.
    pub fn try_verify_signature(&mut self, verify: CertificateVerifyRef) -> (r: Option<
        Result<(), TlsError>,
    >)
        ensures
            r is Some <==> old(self)@.can_verify::<SoftwareRsa>(verify.signature_scheme),
            r is None ==> final(self)@ == old(self)@,
            r matches Some(result) ==> final(self)@ == old(self)@.after(Step::Use) && result
                == verifier_result(
                old(self)@.digest->Some_0,
                old(self)@.certificate->Some_0,
                verify.signature_scheme,
                verify.signature@,
            ),
    {
        if self.signature_can_be_verified::<SoftwareRsa>(verify.signature_scheme) {
            Some(self.verify_signature(verify))
        } else {
            None
        }
    }
}

} // verus!
