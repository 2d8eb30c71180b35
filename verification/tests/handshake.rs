use rsa::pkcs1::EncodeRsaPublicKey;
use rsa::signature::{SignatureEncoding, Signer};
use sha2::Digest;
use tls_pki::cert_verifier::{
    build_signed_message, Aes128GcmSha256, Aes256GcmSha384, CertVerifier, OwnedCertificate,
    TlsCipherSuite, TlsClock, Transcript,
};
use tls_pki::chain::CertificateEntryRef::{self, RawPublicKey, X509};
use tls_pki::chain::{CertificateChain, CertificateRef};
use tls_pki::error::TlsError;
use tls_pki::rsa_backend::{HardwareRsa, MixedRsa, RsaHooks};
use tls_pki::signature::{algorithm_of_scheme, SignatureScheme, SignatureStatus};
use tls_pki::verify::{
    conclude_handshake, try_verify_signature, try_verify_signature_with, verify_signature,
    verify_signature_with, CertificateVerifyRef,
};

const RSA_P: &str = "\
    d7775e3573fdd19cd57bb5c3b1588a4be68566df1f3a47414387e83c84226bfc54e368e31dd55b2dcb90a623\
    c347c8a8f27464234a9651ab396f27800cce71583b5ae0ee04ae6c5a2103adb099b0fe848e1c3099695fceee\
    31672b966dcabef1abe054a6834ebc456286f770b109df5d3481584f49392167bdbf90142b0782b3";

const RSA_Q: &str = "\
    c520104ae7c16f19f850238a20835542720bdaf1cccb477a651e32e5a1e4c5251b916cd55669446c2deea26f\
    e56c4d2087744bd21f063c6d8391cbb5f02b42c01c42ca17213d10383eb5b6352dbe0c12517bd7a98f5a8122\
    c84665fd45c2d8ca0da54424a3a652c7c683e6ba039294a85f7d30fd98851b3aeac540b20004f107";

/// PSS signatures of "signed message".
const PSS_SHA256: &str = "\
    21183f811634a91740f5a31ab4402549070a2e18a7916fafb88570367ac888532f803b79a219aad89cf21da2\
    188d49e2eae9e1b77121249765cd3a06192f193f303a715c61d0055b51afc2cea7b4a0bb281e71e624c2c590\
    5e1c81e30a96b5c2578ebcc709e9c1713f7401b944cd344d0069f39447f0dc14e279f1267888ee387b2e9072\
    5c65dc88a409aebeae14ab5b18409efca8c0fd32abdb5ad0f7d08d0ed576e1171e02f42f0f2b9b5cf7e9b358\
    ecdf8d4ef3bb457fafa1a90cadeefaf26c13a1ff3eb45fcec0d67a476e5919ba5256aebcff523c978af14aae\
    8b078cc2e2bdbf1331936e3aa014df3fe38d0b08a7e70cfd4e1b851c6600898288badebe";

const PSS_SHA384: &str = "\
    5f7dbb5f420ae85f13b7fe018702d8d7ce779934f5f0b022b5245fcf58c0beff54130e313a564b056fd1adf7\
    613c82aa2e9214b4b7e096d837666ca102b45620ec30bbac730d83e6c5efdf9eb8016f33808c47df7d6e0d26\
    6512b3fc7bc2aadc5e87acd93c1a471d25e90788f8e0f69091863c50584a9da07caccf5955ee9e1368e894b9\
    ce6577d2fc488da3de99ff9df5acd90d07ba46463bb730d2504f8465c8e2021cc11c4f613da32c15b1d1f83c\
    11639786fcf08485d4b56b8c2ef1226448643b7541e7b4f1da86377ef5bfafa84a2ecfb61c10bca75798efd1\
    3a38c74ac2bdf869846172c133c6544d0ad39a536ed00d90ff53893ce9f58cf8be386a85";

const PSS_SHA512: &str = "\
    4428b9aa40456b0fc0f47e2d49566f3da8661f209c61367afba29225b298e7093e25e8bbf89f8b7ed6fb2d66\
    450ad41b923aefb9b11bfeeef49c79f0623cfac4a9b080244381c98410b0d479177e2534e5ead3f55667dc7e\
    ee3a5feee1797cbcd8bc639a024202a9849c701575ccd65b4bbeaac893182bce77ba2ff868308cdb213dddf2\
    0138034f08a8839cbe605a5fdcce41c66d61b60abc7bd867061153ed119a7126b1b36d6c43acc3d085e43b3f\
    39aa29924335ee0d86fe07a3a0cbd9f7db5e4fd91b74844033cfbfcc74f38b8d2995573f47977dae51e54582\
    691a36e1d62b4571533c1d74257fcfcd929a6bf1d8b57f9346e9fd731967671ce3995b78";

/// A PSS signature of the message for the transcript "transcript", with SHA-256.
const PSS_HANDSHAKE: &str = "\
    53b5ac486bd80717354f805770f505af8286bf84edd54d281633926eb71bd7352b388e6573f1cd9425342ee5\
    b71a185f5e219c6d7b328989c123119cce10906445418ca25929651358802e94f4a49ad41b677a20c34de8ec\
    52e893e99a95b45023e0144fdab4f4f898f8bbda1be24eec0babea115e755bb6323082c0b284af0019ada41b\
    4e55d745014fe14ef754befd658e4aaf9892efa3aa3c2606e61cc3fcf9ec9e4556bd60e098bef0b3f1fc9c0e\
    031a5bed58d40c5fb1a5574b804b5ae9077dc92144b88789feccae1afb0a40d923368d6946866095b3ef4eaf\
    7da0422744d6411d1b578ce545efc651ebfcab5936a937947d12cea000428f65b9534163";

fn hex(text: &str) -> Vec<u8> {
    (0..text.len()).step_by(2).map(|i| u8::from_str_radix(&text[i..i + 2], 16).unwrap()).collect()
}

/// An element with the given tag and the parts as its content.
fn der(tag: u8, parts: &[&[u8]]) -> Vec<u8> {
    let content = parts.concat();
    let n = content.len();
    let mut out = vec![tag];
    if n < 0x80 {
        out.push(n as u8);
    } else if n < 0x100 {
        out.extend([0x81, n as u8]);
    } else {
        out.extend([0x82, (n >> 8) as u8, n as u8]);
    }
    out.extend(content);
    out
}

const ECDSA_SHA256: &[u8] = &[0x2a, 0x86, 0x48, 0xce, 0x3d, 0x04, 0x03, 0x02];
const ECDSA_SHA384: &[u8] = &[0x2a, 0x86, 0x48, 0xce, 0x3d, 0x04, 0x03, 0x03];
const ED25519: &[u8] = &[0x2b, 0x65, 0x70];

fn plain_algorithm(oid: &[u8]) -> Vec<u8> {
    der(0x30, &[&der(0x06, &[oid])])
}

/// The identifier 1.2.840.113549.1.1.n, with parameters NULL.
fn rsa_algorithm(n: u8) -> Vec<u8> {
    let oid = [0x2a, 0x86, 0x48, 0x86, 0xf7, 0x0d, 0x01, 0x01, n];
    der(0x30, &[&der(0x06, &[&oid]), &der(0x05, &[])])
}

fn attribute(oid: &[u8], value: &[u8]) -> Vec<u8> {
    der(0x30, &[&der(0x06, &[oid]), &der(0x0c, &[value])])
}

fn common_name(value: &[u8]) -> Vec<u8> {
    der(0x31, &[&attribute(&[0x55, 0x04, 0x03], value)])
}

/// The parts of a certificate, encoded.
struct Parts {
    algorithm: Vec<u8>,
    subject: Vec<u8>,
    not_before: Vec<u8>,
    not_after: Vec<u8>,
    key: Vec<u8>,
    key_unused_bits: u8,
    extensions: Option<Vec<u8>>,
    signature_unused_bits: u8,
}

fn parts(algorithm: &[u8], name: &str, key: &[u8]) -> Parts {
    Parts {
        algorithm: algorithm.to_vec(),
        subject: common_name(name.as_bytes()),
        not_before: der(0x17, &[b"240101000000Z"]),
        not_after: der(0x18, &[b"20540630123015Z"]),
        key: key.to_vec(),
        key_unused_bits: 0,
        extensions: None,
        signature_unused_bits: 0,
    }
}

fn signed_part(p: &Parts) -> Vec<u8> {
    let key_info = der(
        0x30,
        &[
            &plain_algorithm(&[0x2a, 0x03]),
            &der(0x03, &[&[p.key_unused_bits], &p.key]),
        ],
    );
    let extensions = match &p.extensions {
        Some(e) => der(0xa3, &[&der(0x30, &[e])]),
        None => vec![],
    };
    der(
        0x30,
        &[
            &der(0xa0, &[&der(0x02, &[&[2]])]),
            &der(0x02, &[&[1]]),
            &p.algorithm,
            &der(0x30, &[]),
            &der(0x30, &[&p.not_before, &p.not_after]),
            &der(0x30, &[&p.subject]),
            &key_info,
            &extensions,
        ],
    )
}

fn issue(p: &Parts, sign: &dyn Fn(&[u8]) -> Vec<u8>) -> Vec<u8> {
    let tbs = signed_part(p);
    let signature = sign(&tbs);
    der(
        0x30,
        &[&tbs, &p.algorithm, &der(0x03, &[&[p.signature_unused_bits], &signature])],
    )
}

fn p256_key(seed: u8) -> (Vec<u8>, impl Fn(&[u8]) -> Vec<u8>) {
    let key = p256::ecdsa::SigningKey::from_slice(&[seed; 32]).unwrap();
    let public = key.verifying_key().to_encoded_point(false).as_bytes().to_vec();
    let sign = move |message: &[u8]| {
        let signature: p256::ecdsa::Signature = key.sign(message);
        signature.to_der().as_bytes().to_vec()
    };
    (public, sign)
}

fn p384_key(seed: u8) -> (Vec<u8>, impl Fn(&[u8]) -> Vec<u8>) {
    let key = p384::ecdsa::SigningKey::from_slice(&[seed; 48]).unwrap();
    let public = key.verifying_key().to_encoded_point(false).as_bytes().to_vec();
    let sign = move |message: &[u8]| {
        let signature: p384::ecdsa::Signature = key.sign(message);
        signature.to_der().as_bytes().to_vec()
    };
    (public, sign)
}

fn ed25519_key(seed: u8) -> (Vec<u8>, impl Fn(&[u8]) -> Vec<u8>) {
    let key = ed25519_dalek::SigningKey::from_bytes(&[seed; 32]);
    let public = key.verifying_key().to_bytes().to_vec();
    let sign = move |message: &[u8]| key.sign(message).to_bytes().to_vec();
    (public, sign)
}

fn rsa_key() -> rsa::RsaPrivateKey {
    let p = rsa::BigUint::from_bytes_be(&hex(RSA_P));
    let q = rsa::BigUint::from_bytes_be(&hex(RSA_Q));
    rsa::RsaPrivateKey::from_p_q(p, q, rsa::BigUint::from(65537u32)).unwrap()
}

fn rsa_public() -> Vec<u8> {
    rsa_key().to_public_key().to_pkcs1_der().unwrap().as_bytes().to_vec()
}

fn list<'a>(entries: &[CertificateEntryRef<'a>]) -> CertificateRef<'a> {
    CertificateRef { entries: entries.to_vec() }
}

fn again<'a>(list: &CertificateRef<'a>) -> CertificateRef<'a> {
    CertificateRef { entries: list.entries.clone() }
}

fn transcript(bytes: &[u8]) -> Transcript {
    let mut transcript = Transcript::new();
    transcript.update(bytes);
    transcript
}

/// A certificate that is only used for its key.
fn holder(key: &[u8]) -> Vec<u8> {
    issue(&parts(&plain_algorithm(ECDSA_SHA256), "holder", key), &|_| vec![0])
}

/// A clock that stands at the start of 2025.
struct In2025;

impl TlsClock for In2025 {
    fn now() -> Option<u64> {
        Some(1735689600)
    }
}

/// A clock that stands in 1970.
struct In1970;

impl TlsClock for In1970 {
    fn now() -> Option<u64> {
        Some(1)
    }
}

/// A clock that is not set.
struct NoClock;

impl TlsClock for NoClock {
    fn now() -> Option<u64> {
        None
    }
}

/// A cipher suite with a hash that is too long.
struct LongHash;

impl TlsCipherSuite for LongHash {
    type Hash = Transcript;

    fn digest(_: &Transcript) -> Vec<u8> {
        vec![0; 64]
    }
}

/// A cipher suite that hashes as the handshake goes on.
struct RunningSha256;

impl TlsCipherSuite for RunningSha256 {
    type Hash = sha2::Sha256;

    fn digest(transcript: &sha2::Sha256) -> Vec<u8> {
        transcript.clone().finalize().to_vec()
    }
}

type Client = CertVerifier<Aes128GcmSha256, In2025, 4096>;

/// A root, a certificate that it issued, and one that the latter issued.
fn chain() -> (Vec<u8>, Vec<u8>, Vec<u8>) {
    let (root_key, root_sign) = p256_key(1);
    let (mid_key, mid_sign) = p384_key(2);
    let (leaf_key, _) = ed25519_key(3);
    let root = issue(&parts(&plain_algorithm(ECDSA_SHA256), "root", &root_key), &root_sign);
    let mid = issue(&parts(&plain_algorithm(ECDSA_SHA256), "mid", &mid_key), &root_sign);
    let leaf = issue(&parts(&plain_algorithm(ECDSA_SHA384), "host.example", &leaf_key), &mid_sign);
    (root, mid, leaf)
}

fn verify_ref(scheme: SignatureScheme, signature: &[u8]) -> CertificateVerifyRef<'_> {
    CertificateVerifyRef { signature_scheme: scheme, signature }
}

#[test]
fn chain_goes_from_the_authority_to_the_first_entry() {
    let ca = X509(b"ca");
    let entries = list(&[X509(b"leaf"), RawPublicKey(b"mid"), X509(b"top")]);
    let mut chain = CertificateChain::new(&ca, &entries);
    let mut seen = vec![];
    while let Some((p, q)) = chain.next() {
        let bytes = |e: &CertificateEntryRef| match e {
            X509(b) => ("x", b.to_vec()),
            RawPublicKey(b) => ("r", b.to_vec()),
        };
        seen.push((bytes(p), bytes(q)));
    }
    assert_eq!(
        seen,
        vec![
            (("x", b"ca".to_vec()), ("x", b"top".to_vec())),
            (("x", b"top".to_vec()), ("r", b"mid".to_vec())),
            (("r", b"mid".to_vec()), ("x", b"leaf".to_vec())),
        ]
    );
    assert!(chain.next().is_none());
    assert!(CertificateChain::new(&ca, &list(&[])).next().is_none());
}

#[test]
fn chain_is_verified_and_kept() {
    let (root, mid, leaf) = chain();
    let (_, leaf_sign) = ed25519_key(3);
    let ca = Some(X509(&root));
    let cert = list(&[X509(&leaf), X509(&mid)]);
    let mut client = Client::new();
    client.set_hostname_verification("HOST.example").unwrap();
    assert_eq!(client.verify_certificate(&transcript(b"transcript"), &ca, again(&cert)), Ok(()));

    let digest = Aes128GcmSha256::digest(&transcript(b"transcript"));
    let message = build_signed_message(&digest).unwrap();
    assert_eq!(message.len(), 64 + 34 + 32);
    assert!(message.starts_with(&[0x20; 64]));
    assert_eq!(&message[64..98], b"TLS 1.3, server CertificateVerify\0");
    assert_eq!(&message[98..], digest);

    let signature = leaf_sign(&message);
    let verify = verify_ref(SignatureScheme::Ed25519, &signature);
    assert_eq!(client.try_verify_signature(verify), Some(Ok(())));
    // The transcript is used up.
    assert_eq!(client.try_verify_signature(verify), None);
    // Another handshake with the same verifier
    assert_eq!(client.verify_certificate(&transcript(b"transcript"), &ca, again(&cert)), Ok(()));
    assert_eq!(client.verify_signature(verify), Ok(()));
    assert_eq!(client.verify_certificate(&transcript(b"Transcript"), &ca, again(&cert)), Ok(()));
    assert_eq!(client.verify_signature(verify), Err(TlsError::InvalidSignature));
}

#[test]
fn chain_must_be_whole_and_in_order() {
    let (root, mid, leaf) = chain();
    let ca = Some(X509(&root));
    let mut client = Client::default();
    let mut check = |ca: &Option<CertificateEntryRef>, entries: &[CertificateEntryRef]| {
        client.verify_certificate(&transcript(b"t"), ca, list(entries))
    };
    assert_eq!(check(&ca, &[X509(&leaf), X509(&mid)]), Ok(()));
    assert_eq!(check(&ca, &[X509(&mid), X509(&leaf)]), Err(TlsError::DecodeError));
    assert_eq!(check(&ca, &[X509(&leaf)]), Err(TlsError::DecodeError));
    assert_eq!(check(&Some(X509(&mid)), &[X509(&leaf)]), Ok(()));
    assert_eq!(check(&ca, &[X509(&mid)]), Ok(()));
    assert_eq!(check(&ca, &[X509(&leaf), X509(&mid), X509(&root)]), Ok(()));
    assert_eq!(check(&ca, &[RawPublicKey(&mid)]), Err(TlsError::InvalidCertificate));
    assert_eq!(check(&None, &[X509(&leaf), X509(&mid)]), Err(TlsError::Unimplemented));
    // Without a host to look for, an empty list proves nothing and is let through.
    assert_eq!(check(&ca, &[]), Ok(()));
}

#[test]
fn host_must_be_covered_by_the_first_certificate() {
    let (root, mid, leaf) = chain();
    let ca = Some(X509(&root));
    let cert = list(&[X509(&leaf), X509(&mid)]);
    let mut client = Client::new();
    client.set_hostname_verification("mid").unwrap();
    assert_eq!(
        client.verify_certificate(&transcript(b"t"), &ca, again(&cert)),
        Err(TlsError::InvalidCertificate)
    );
    client.set_hostname_verification("host.example").unwrap();
    assert_eq!(client.verify_certificate(&transcript(b"t"), &ca, again(&cert)), Ok(()));
    assert_eq!(
        client.verify_certificate(&transcript(b"t"), &ca, list(&[])),
        Err(TlsError::InvalidCertificate)
    );
    // A name that does not fit changes nothing.
    assert_eq!(
        client.set_hostname_verification(&"a".repeat(65)),
        Err(TlsError::InsufficientSpace)
    );
    assert_eq!(client.verify_certificate(&transcript(b"t"), &ca, again(&cert)), Ok(()));
    assert_eq!(client.set_hostname_verification(&"a".repeat(64)), Ok(()));
    assert_eq!(
        client.verify_certificate(&transcript(b"t"), &ca, again(&cert)),
        Err(TlsError::InvalidCertificate)
    );
}

#[test]
fn refused_certificates_are_not_kept() {
    let (root, mid, leaf) = chain();
    let (_, leaf_sign) = ed25519_key(3);
    let ca = Some(X509(&root));
    let mut client = Client::new();
    let message = build_signed_message(&Aes128GcmSha256::digest(&transcript(b"first"))).unwrap();
    let signature = leaf_sign(&message);
    let verify = verify_ref(SignatureScheme::Ed25519, &signature);
    assert_eq!(client.try_verify_signature(verify), None);
    assert_eq!(
        client.verify_certificate(&transcript(b"first"), &ca, list(&[X509(&leaf)])),
        Err(TlsError::DecodeError)
    );
    assert_eq!(client.try_verify_signature(verify), None);
    let cert = list(&[X509(&leaf), X509(&mid)]);
    assert_eq!(client.verify_certificate(&transcript(b"first"), &ca, again(&cert)), Ok(()));
    // The refused second list leaves the first one and its transcript in place.
    assert_eq!(
        client.verify_certificate(&transcript(b"second"), &ca, list(&[X509(&leaf)])),
        Err(TlsError::DecodeError)
    );
    assert_eq!(client.try_verify_signature(verify), Some(Ok(())));
}

#[test]
fn clock_is_asked() {
    let (root, mid, leaf) = chain();
    let ca = Some(X509(&root));
    let cert = list(&[X509(&leaf), X509(&mid)]);
    let mut early = CertVerifier::<Aes128GcmSha256, In1970, 4096>::new();
    assert_eq!(early.verify_certificate(&transcript(b"t"), &ca, again(&cert)), Err(TlsError::InvalidCertificate));
    let mut unset = CertVerifier::<Aes128GcmSha256, NoClock, 4096>::new();
    assert_eq!(unset.verify_certificate(&transcript(b"t"), &ca, again(&cert)), Ok(()));
}

#[test]
fn certificates_must_fit() {
    let (root, mid, leaf) = chain();
    let ca = Some(X509(&root));
    let cert = list(&[X509(&leaf), X509(&mid)]);
    let mut small = CertVerifier::<Aes128GcmSha256, In2025, 100>::new();
    assert_eq!(small.verify_certificate(&transcript(b"t"), &ca, again(&cert)), Err(TlsError::OutOfMemory));
    let three = list(&[X509(b"ab"), RawPublicKey(b"c"), X509(b"")]);
    assert!(matches!(OwnedCertificate::<2>::copy_of(&three), Err(TlsError::OutOfMemory)));
    let kept = OwnedCertificate::<3>::copy_of(&three).unwrap();
    let back = kept.borrowed();
    assert_eq!(back.entries.len(), 3);
    assert!(matches!(back.entries[0], X509(b"ab")));
    assert!(matches!(back.entries[1], RawPublicKey(b"c")));
    assert!(matches!(back.entries[2], X509(b"")));
}

#[test]
fn every_scheme_accepts_its_signatures_and_no_others() {
    let (p256, p256_sign) = p256_key(1);
    let (p384, p384_sign) = p384_key(2);
    let (ed, ed_sign) = ed25519_key(3);
    let message = b"signed message";
    for (scheme, key, signature) in [
        (SignatureScheme::EcdsaSecp256r1Sha256, p256, p256_sign(message)),
        (SignatureScheme::EcdsaSecp384r1Sha384, p384, p384_sign(message)),
        (SignatureScheme::Ed25519, ed, ed_sign(message)),
        (SignatureScheme::RsaPssRsaeSha256, rsa_public(), hex(PSS_SHA256)),
        (SignatureScheme::RsaPssRsaeSha384, rsa_public(), hex(PSS_SHA384)),
        (SignatureScheme::RsaPssRsaeSha512, rsa_public(), hex(PSS_SHA512)),
    ] {
        let cert = holder(&key);
        let cert = list(&[X509(&cert), X509(b"not read")]);
        let verify = verify_ref(scheme, &signature);
        assert_eq!(verify_signature(message, &cert, &verify), Ok(()));
        assert_eq!(
            verify_signature(b"another message", &cert, &verify),
            Err(TlsError::InvalidSignature)
        );
        // The form of the signature matters to all but RSA.
        let expected = if key.len() > 200 {
            TlsError::InvalidSignature
        } else {
            TlsError::DecodeError
        };
        assert_eq!(
            verify_signature(message, &cert, &verify_ref(scheme, b"short")),
            Err(expected)
        );
    }
}

#[test]
fn key_must_be_one_for_the_scheme() {
    let (p256, _) = p256_key(1);
    let cert = holder(&p256);
    let cert = list(&[X509(&cert)]);
    let check = |scheme| try_verify_signature(b"m", &cert, &verify_ref(scheme, b"s"));
    let decode = Some(Err(TlsError::DecodeError));
    assert_eq!(check(SignatureScheme::EcdsaSecp384r1Sha384), decode);
    assert_eq!(check(SignatureScheme::RsaPssRsaeSha384), decode);
    assert_eq!(check(SignatureScheme::RsaPssRsaeSha512), decode);
    assert_eq!(check(SignatureScheme::RsaPssRsaeSha256), None);
    assert_eq!(check(SignatureScheme::Ed25519), None);
    let bad = holder(&[&[2][..], &[0; 31][..]].concat());
    let bad = list(&[X509(&bad)]);
    let verify = verify_ref(SignatureScheme::Ed25519, b"s");
    assert_eq!(try_verify_signature(b"m", &bad, &verify), decode);
}

#[test]
fn other_schemes_are_not_supported() {
    let cert = holder(b"any key");
    let cert = list(&[X509(&cert)]);
    for scheme in [
        SignatureScheme::RsaPkcs1Sha256,
        SignatureScheme::RsaPkcs1Sha384,
        SignatureScheme::RsaPkcs1Sha512,
        SignatureScheme::EcdsaSecp521r1Sha512,
        SignatureScheme::Ed448,
        SignatureScheme::RsaPssPssSha256,
        SignatureScheme::RsaPssPssSha384,
        SignatureScheme::RsaPssPssSha512,
        SignatureScheme::RsaPkcs1Sha1,
        SignatureScheme::EcdsaSha1,
    ] {
        assert_eq!(algorithm_of_scheme(scheme), None);
        assert_eq!(
            verify_signature(b"m", &cert, &verify_ref(scheme, b"s")),
            Err(TlsError::InvalidSignatureScheme)
        );
    }
}

#[test]
fn first_entry_must_be_a_certificate_with_a_key() {
    let verify = verify_ref(SignatureScheme::EcdsaSecp256r1Sha256, b"s");
    let check = |entries: &[CertificateEntryRef]| verify_signature(b"m", &list(entries), &verify);
    assert_eq!(check(&[]), Err(TlsError::DecodeError));
    assert_eq!(check(&[RawPublicKey(b"key")]), Err(TlsError::DecodeError));
    assert_eq!(check(&[X509(b"no certificate")]), Err(TlsError::DecodeError));
    let mut p = parts(&plain_algorithm(ECDSA_SHA256), "x", b"key");
    p.key_unused_bits = 7;
    assert_eq!(check(&[X509(&issue(&p, &|_| vec![]))]), Err(TlsError::DecodeError));
    assert_eq!(conclude_handshake(SignatureStatus::Valid), Ok(()));
    assert_eq!(
        conclude_handshake(SignatureStatus::Unsupported),
        Err(TlsError::InvalidSignatureScheme)
    );
    assert_eq!(conclude_handshake(SignatureStatus::BadKey), Err(TlsError::DecodeError));
    assert_eq!(conclude_handshake(SignatureStatus::BadSignature), Err(TlsError::DecodeError));
    assert_eq!(conclude_handshake(SignatureStatus::Mismatch), Err(TlsError::InvalidSignature));
}

#[test]
fn rsa_servers_are_verified() {
    let sign = |m: &[u8]| {
        rsa::pkcs1v15::SigningKey::<sha2::Sha256>::new(rsa_key()).sign(m).to_vec()
    };
    let cert = issue(&parts(&rsa_algorithm(11), "localhost", &rsa_public()), &sign);
    let ca = Some(X509(&cert));
    let mut client = Client::new();
    client.set_hostname_verification("localhost").unwrap();
    assert_eq!(
        client.try_verify_certificate(&transcript(b"transcript"), &ca, list(&[X509(&cert)])),
        Some(Ok(()))
    );
    let signature = hex(PSS_HANDSHAKE);
    let verify = verify_ref(SignatureScheme::RsaPssRsaeSha256, &signature);
    assert_eq!(client.try_verify_signature(verify), Some(Ok(())));
}

#[test]
fn longer_hash_gives_another_message() {
    let (root, mid, leaf) = chain();
    let (_, leaf_sign) = ed25519_key(3);
    let ca = Some(X509(&root));
    let cert = list(&[X509(&leaf), X509(&mid)]);
    let mut client = CertVerifier::<Aes256GcmSha384, In2025, 4096>::new();
    assert_eq!(client.verify_certificate(&transcript(b"t"), &ca, again(&cert)), Ok(()));
    let digest = Aes256GcmSha384::digest(&transcript(b"t"));
    assert_eq!(digest.len(), 48);
    let signature = leaf_sign(&build_signed_message(&digest).unwrap());
    let verify = verify_ref(SignatureScheme::Ed25519, &signature);
    assert_eq!(client.verify_signature(verify), Ok(()));

    // A hash of more than 48 bytes does not fit; the transcript is used up.
    let mut client = CertVerifier::<LongHash, In2025, 4096>::new();
    assert_eq!(client.verify_certificate(&transcript(b"t"), &ca, again(&cert)), Ok(()));
    assert_eq!(client.verify_signature(verify), Err(TlsError::EncodeError));
    assert_eq!(client.try_verify_signature(verify), None);
    assert_eq!(build_signed_message(&[0; 49]), Err(TlsError::EncodeError));
}

#[test]
fn digests_are_those_of_sha2() {
    assert_eq!(
        Aes128GcmSha256::digest(&transcript(b"abc")),
        hex("ba7816bf8f01cfea414140de5dae2223b00361a396177a9cb410ff61f20015ad")
    );
    assert_eq!(
        Aes256GcmSha384::digest(&transcript(b"abc")),
        hex("cb00753f45a35e8bb5a03d699ac65007272c32ab0eded1631a8b605a43ff5bed8086072ba1e7cc2358baeca134c825a7")
    );
}

#[test]
fn chain_with_a_key_of_the_wrong_length_is_told_apart() {
    let (root_key, root_sign) = p256_key(1);
    let (_, ed_sign) = ed25519_key(3);
    let root = issue(&parts(&plain_algorithm(ECDSA_SHA256), "root", &root_key), &root_sign);
    let cert = issue(&parts(&plain_algorithm(ED25519), "x", b"k"), &ed_sign);
    let ca = Some(X509(&root));
    let t = transcript(b"t");
    let mut client = Client::new();
    assert_eq!(client.try_verify_certificate(&t, &ca, list(&[X509(&cert)])), None);
    assert_eq!(client.try_verify_certificate(&t, &ca, list(&[X509(&root)])), Some(Ok(())));
    assert_eq!(
        client.try_verify_certificate(&t, &None, list(&[X509(&cert)])),
        Some(Err(TlsError::Unimplemented))
    );
    assert_eq!(
        client.try_verify_certificate_with::<HardwareRsa<Device>>(&t, &ca, list(&[X509(&cert)])),
        None
    );
}

#[test]
fn what_comes_before_a_key_of_the_wrong_length_is_reported() {
    let (root_key, root_sign) = p256_key(1);
    let (_, ed_sign) = ed25519_key(3);
    let root = issue(&parts(&plain_algorithm(ECDSA_SHA256), "root", &root_key), &root_sign);
    let unfit = issue(&parts(&plain_algorithm(ED25519), "x", b"k"), &ed_sign);
    let mut expired = parts(&plain_algorithm(ECDSA_SHA256), "mid", &root_key);
    expired.not_after = der(0x17, &[b"240102000000Z"]);
    let expired = issue(&expired, &root_sign);
    let ca = Some(X509(&root));
    let t = transcript(b"t");
    let mut client = Client::new();
    // An earlier link is out of its period.
    assert_eq!(
        client.try_verify_certificate(&t, &ca, list(&[X509(&unfit), X509(&expired)])),
        Some(Err(TlsError::InvalidCertificate))
    );
    assert_eq!(
        client.verify_certificate(&t, &ca, list(&[X509(&unfit), X509(&expired)])),
        Err(TlsError::InvalidCertificate)
    );
    // An earlier link is no certificate.
    assert_eq!(
        client.try_verify_certificate(&t, &ca, list(&[X509(&unfit), X509(b"")])),
        Some(Err(TlsError::DecodeError))
    );
    // The certificate with that signature is out of its period itself.
    let mut early = CertVerifier::<Aes128GcmSha256, In1970, 4096>::new();
    assert_eq!(
        early.try_verify_certificate(&t, &ca, list(&[X509(&unfit)])),
        Some(Err(TlsError::InvalidCertificate))
    );
    // The earlier link is in order.
    assert_eq!(
        client.try_verify_certificate(&t, &ca, list(&[X509(&unfit), X509(&root)])),
        None
    );
}

#[test]
fn digest_is_measured_before_the_key_is_looked_at() {
    let (key, sign) = p256_key(1);
    let cert = issue(&parts(&plain_algorithm(ECDSA_SHA256), "x", &key), &sign);
    let ca = Some(X509(&cert));
    let t = transcript(b"t");
    let verify = verify_ref(SignatureScheme::Ed25519, b"s");
    let mut long = CertVerifier::<LongHash, In2025, 4096>::new();
    assert_eq!(long.verify_certificate(&t, &ca, list(&[X509(&cert)])), Ok(()));
    assert_eq!(long.try_verify_signature(verify), Some(Err(TlsError::EncodeError)));
    assert_eq!(long.try_verify_signature(verify), None);
    let mut client = Client::new();
    assert_eq!(client.verify_certificate(&t, &ca, list(&[X509(&cert)])), Ok(()));
    assert_eq!(client.try_verify_signature(verify), None);
    // Nothing was used up.
    let verify = verify_ref(SignatureScheme::EcdsaSecp256r1Sha256, b"s");
    assert_eq!(client.try_verify_signature(verify), Some(Err(TlsError::DecodeError)));
}

#[test]
fn running_hash_can_be_used() {
    let (root, mid, leaf) = chain();
    let (_, leaf_sign) = ed25519_key(3);
    let ca = Some(X509(&root));
    let mut hash = sha2::Sha256::new();
    hash.update(b"tran");
    hash.update(b"script");
    let mut client = CertVerifier::<RunningSha256, In2025, 4096>::new();
    assert_eq!(client.verify_certificate(&hash, &ca, list(&[X509(&leaf), X509(&mid)])), Ok(()));
    // What is hashed later is not part of the signed digest.
    hash.update(b"more");
    let digest = Aes128GcmSha256::digest(&transcript(b"transcript"));
    let signature = leaf_sign(&build_signed_message(&digest).unwrap());
    let verify = verify_ref(SignatureScheme::Ed25519, &signature);
    assert_eq!(client.try_verify_signature(verify), Some(Ok(())));
}

#[test]
fn kept_digest_has_certificates() {
    let (root, mid, leaf) = chain();
    let ca = Some(X509(&root));
    let cert = list(&[X509(&leaf), X509(&mid)]);
    let verify = verify_ref(SignatureScheme::Ed25519, &[0; 64]);
    let mut client = Client::new();
    assert_eq!(client.try_verify_signature(verify), None);
    client.set_hostname_verification("host.example").unwrap();
    assert_eq!(client.try_verify_signature(verify), None);
    assert_eq!(client.verify_certificate(&transcript(b"t"), &ca, again(&cert)), Ok(()));
    client.set_hostname_verification("other.example").unwrap();
    assert_eq!(
        client.verify_certificate(&transcript(b"t"), &ca, again(&cert)),
        Err(TlsError::InvalidCertificate)
    );
    assert_eq!(client.try_verify_signature(verify), Some(Err(TlsError::InvalidSignature)));
    assert_eq!(client.try_verify_signature(verify), None);
}

/// Hooks that accept the key "key", the signature "hash name" and the message
/// "message".
struct Device;

impl RsaHooks for Device {
    fn verify_rsa_pkcs1v15_sha1(_: &[u8], _: &[u8], _: &[u8]) -> bool {
        panic!("not for handshakes")
    }

    fn verify_rsa_pkcs1v15_sha256(_: &[u8], _: &[u8], _: &[u8]) -> bool {
        true
    }

    fn verify_rsa_pkcs1v15_sha384(_: &[u8], _: &[u8], _: &[u8]) -> bool {
        panic!("not for handshakes")
    }

    fn verify_rsa_pkcs1v15_sha512(_: &[u8], _: &[u8], _: &[u8]) -> bool {
        panic!("not for handshakes")
    }

    fn verify_rsa_pss_sha256(key: &[u8], signature: &[u8], message: &[u8]) -> bool {
        key == b"key" && signature == b"256" && (message == b"message" || message.len() == 130)
    }

    fn verify_rsa_pss_sha384(key: &[u8], signature: &[u8], message: &[u8]) -> bool {
        key == b"key" && signature == b"384" && message == b"message"
    }

    fn verify_rsa_pss_sha512(key: &[u8], signature: &[u8], message: &[u8]) -> bool {
        key == b"key" && signature == b"512" && message == b"message"
    }
}

#[test]
fn hardware_decides_on_rsa_handshakes() {
    let cert = holder(b"key");
    let cert = list(&[X509(&cert)]);
    for (scheme, signature) in [
        (SignatureScheme::RsaPssRsaeSha256, "256"),
        (SignatureScheme::RsaPssRsaeSha384, "384"),
        (SignatureScheme::RsaPssRsaeSha512, "512"),
    ] {
        let verify = verify_ref(scheme, signature.as_bytes());
        let check = |message| verify_signature_with::<HardwareRsa<Device>>(message, &cert, &verify);
        assert_eq!(check(b"message"), Ok(()));
        assert_eq!(check(b"Message"), Err(TlsError::InvalidSignature));
    }
    let certificate = issue(&parts(&rsa_algorithm(11), "x", b"key"), &|_| vec![]);
    let ca = Some(X509(&certificate));
    let mut client = Client::new();
    let verify = verify_ref(SignatureScheme::RsaPssRsaeSha256, b"256");
    assert_eq!(client.try_verify_signature_with::<HardwareRsa<Device>>(verify), None);
    assert_eq!(
        client.verify_certificate_with::<HardwareRsa<Device>>(
            &transcript(b"t"),
            &ca,
            list(&[X509(&certificate)])
        ),
        Ok(())
    );
    assert_eq!(client.verify_signature_with::<HardwareRsa<Device>>(verify), Ok(()));
    assert_eq!(
        client.try_verify_certificate_with::<HardwareRsa<Device>>(
            &transcript(b"t"),
            &ca,
            list(&[X509(&certificate)])
        ),
        Some(Ok(()))
    );
    assert_eq!(client.try_verify_signature_with::<HardwareRsa<Device>>(verify), Some(Ok(())));
    // The device decodes keys that the software cannot.
    let holder = holder(b"key");
    let holder = list(&[X509(&holder)]);
    assert_eq!(try_verify_signature(b"message", &holder, &verify), None);
    assert_eq!(
        try_verify_signature_with::<HardwareRsa<Device>>(b"message", &holder, &verify),
        Some(Ok(()))
    );
}

#[test]
fn mixed_backend_verifies_handshakes_in_software() {
    let rsa = holder(&rsa_public());
    let rsa = list(&[X509(&rsa)]);
    let device = holder(b"key");
    let device = list(&[X509(&device)]);
    for (scheme, signature, for_device, undecodable) in [
        (SignatureScheme::RsaPssRsaeSha256, PSS_SHA256, "256", None),
        (SignatureScheme::RsaPssRsaeSha384, PSS_SHA384, "384", Some(Err(TlsError::DecodeError))),
        (SignatureScheme::RsaPssRsaeSha512, PSS_SHA512, "512", Some(Err(TlsError::DecodeError))),
    ] {
        let signature = hex(signature);
        let check = |message, cert, signature| {
            let verify = verify_ref(scheme, signature);
            try_verify_signature_with::<MixedRsa<Device>>(message, cert, &verify)
        };
        assert_eq!(check(b"signed message", &rsa, &signature), Some(Ok(())));
        assert_eq!(check(b"message", &device, for_device.as_bytes()), undecodable);
    }
}

#[test]
fn only_the_first_entry_counts() {
    let (key, sign) = p256_key(1);
    let first = holder(&key);
    let second = holder(b"another key");
    let signature = sign(b"message");
    let verify = verify_ref(SignatureScheme::EcdsaSecp256r1Sha256, &signature);
    for entries in [
        list(&[X509(&first)]),
        list(&[X509(&first), X509(&second)]),
        list(&[X509(&first), RawPublicKey(b""), X509(b"no certificate")]),
    ] {
        assert_eq!(verify_signature(b"message", &entries, &verify), Ok(()));
        assert_eq!(
            verify_signature(b"Message", &entries, &verify),
            Err(TlsError::InvalidSignature)
        );
    }
    assert_eq!(
        verify_signature(b"message", &list(&[X509(&second), X509(&first)]), &verify),
        Err(TlsError::DecodeError)
    );
}
