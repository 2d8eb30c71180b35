use rsa::pkcs1::EncodeRsaPublicKey;
use rsa::signature::{SignatureEncoding, Signer};
use tls_pki::chain::CertificateEntryRef::{self, RawPublicKey, X509};
use tls_pki::error::{ParseError, TlsError};
use tls_pki::hostname::HostnameResult;
use tls_pki::rsa_backend::{HardwareRsa, MixedRsa, RsaHooks, SoftwareRsa};
use tls_pki::signature::{
    check_signature, identify_algorithm, signature_status, SignatureAlgorithm, SignatureStatus,
};
use tls_pki::time::{get_cert_time, DateTime, Time};
use tls_pki::verify::{
    conclude_certificate, examine_certificate, try_verify_certificate,
    try_verify_certificate_with, verify_certificate, verify_certificate_with,
};
use tls_pki::x509::{get_certificate_tlv_bytes, DecodedCertificate};

const ROOT: &str = "\
    3082018a30820130a00302010202051122334455300a06082a8648ce3d0403023030310b3009060355040613\
    025345310d300b060355040a0c04546573743112301006035504030c095465737420526f6f743020170d3234\
    303130313030303030305a180f32303534303633303132333031355a3030310b300906035504061302534531\
    0d300b060355040a0c04546573743112301006035504030c095465737420526f6f743059301306072a8648ce\
    3d020106082a8648ce3d030107034200040afadf170a332393435a9fee85ac11ab5f6836216a5510901cf27f\
    baab8141b9e069fac88bdd87bcde5e29a3fa519404ec2769b2aeff400c3851d7f1d8e64ce6a3353033301206\
    03551d130101ff040830060101ff020100301d0603551d0e0416041496552b04b6dbe36a5adc96067d38d447\
    4c09bf87300a06082a8648ce3d0403020348003045022100975b9cd353023b26197af8dd4ceb11983f26e3a0\
    15b351b5d29acbaaa92edd800220154509a1d7625fdf57df0625286b9dd3ec288c2e490c29fd28b4414034e8\
    69ff";

const LEAF: &str = "\
    3082019c30820142a0030201020206008877665544300a06082a8648ce3d0403023030310b30090603550406\
    13025345310d300b060355040a0c04546573743112301006035504030c095465737420526f6f743020170d32\
    34303130313030303030305a180f32303534303633303132333031355a3029310b3009060355040613025345\
    311a301806035504030c1172656c61792e6578616d706c652e636f6d3059301306072a8648ce3d020106082a\
    8648ce3d030107034200043fc19acf0f12d213155a6d5bb5e462f060fc1379a0ba5cbbe3e72c7008d7353d8b\
    ebbf524d02dad041980688df58ce942e1720ddfcb9612f0c863d12d42609e3a34d304b300c0603551d130101\
    ff04023000300e0603551d0f0101ff040403020780302b0603551d110424302287040a000001820d2a2e6578\
    616d706c652e6f7267820b6578616d706c652e6e6574300a06082a8648ce3d0403020348003045022100c2f7\
    c5968e8a211fb08e08c0d37d7a8e880b0850669d1f1465fde6e793e7045c02205eea6ed7a5d8a64c4bd1f1ae\
    17a0d0e6da8a64ff3776b6ca5efae8cfd8663944";

const RSA_P: &str = "\
    d7775e3573fdd19cd57bb5c3b1588a4be68566df1f3a47414387e83c84226bfc54e368e31dd55b2dcb90a623\
    c347c8a8f27464234a9651ab396f27800cce71583b5ae0ee04ae6c5a2103adb099b0fe848e1c3099695fceee\
    31672b966dcabef1abe054a6834ebc456286f770b109df5d3481584f49392167bdbf90142b0782b3";

const RSA_Q: &str = "\
    c520104ae7c16f19f850238a20835542720bdaf1cccb477a651e32e5a1e4c5251b916cd55669446c2deea26f\
    e56c4d2087744bd21f063c6d8391cbb5f02b42c01c42ca17213d10383eb5b6352dbe0c12517bd7a98f5a8122\
    c84665fd45c2d8ca0da54424a3a652c7c683e6ba039294a85f7d30fd98851b3aeac540b20004f107";

/// 2025-01-01
const NOW: Option<u64> = Some(1735689600);

fn hex(text: &str) -> Vec<u8> {
    (0..text.len()).step_by(2).map(|i| u8::from_str_radix(&text[i..i + 2], 16).unwrap()).collect()
}

/// An element with the given tag and the parts as its content.
fn der(tag: u8, parts: &[&[u8]]) -> Vec<u8> {
    let content = parts.concat();
    let n = content.len();
    let mut out = vec![tag];
    if n < 0x80 {
        out.push(n as u8);
    } else if n < 0x100 {
        out.extend([0x81, n as u8]);
    } else {
        out.extend([0x82, (n >> 8) as u8, n as u8]);
    }
    out.extend(content);
    out
}

const ECDSA_SHA256: &[u8] = &[0x2a, 0x86, 0x48, 0xce, 0x3d, 0x04, 0x03, 0x02];
const ECDSA_SHA384: &[u8] = &[0x2a, 0x86, 0x48, 0xce, 0x3d, 0x04, 0x03, 0x03];
const ED25519: &[u8] = &[0x2b, 0x65, 0x70];

fn plain_algorithm(oid: &[u8]) -> Vec<u8> {
    der(0x30, &[&der(0x06, &[oid])])
}

/// The identifier 1.2.840.113549.1.1.n, with parameters NULL.
fn rsa_algorithm(n: u8) -> Vec<u8> {
    let oid = [0x2a, 0x86, 0x48, 0x86, 0xf7, 0x0d, 0x01, 0x01, n];
    der(0x30, &[&der(0x06, &[&oid]), &der(0x05, &[])])
}

fn attribute(oid: &[u8], value: &[u8]) -> Vec<u8> {
    der(0x30, &[&der(0x06, &[oid]), &der(0x0c, &[value])])
}

fn common_name(value: &[u8]) -> Vec<u8> {
    der(0x31, &[&attribute(&[0x55, 0x04, 0x03], value)])
}

/// The parts of a certificate, encoded.
struct Parts {
    algorithm: Vec<u8>,
    subject: Vec<u8>,
    not_before: Vec<u8>,
    not_after: Vec<u8>,
    key: Vec<u8>,
    key_unused_bits: u8,
    extensions: Option<Vec<u8>>,
    signature_unused_bits: u8,
}

fn parts(algorithm: &[u8], name: &str, key: &[u8]) -> Parts {
    Parts {
        algorithm: algorithm.to_vec(),
        subject: common_name(name.as_bytes()),
        not_before: der(0x17, &[b"240101000000Z"]),
        not_after: der(0x18, &[b"20540630123015Z"]),
        key: key.to_vec(),
        key_unused_bits: 0,
        extensions: None,
        signature_unused_bits: 0,
    }
}

fn signed_part(p: &Parts) -> Vec<u8> {
    let key_info = der(
        0x30,
        &[
            &plain_algorithm(&[0x2a, 0x03]),
            &der(0x03, &[&[p.key_unused_bits], &p.key]),
        ],
    );
    let extensions = match &p.extensions {
        Some(e) => der(0xa3, &[&der(0x30, &[e])]),
        None => vec![],
    };
    der(
        0x30,
        &[
            &der(0xa0, &[&der(0x02, &[&[2]])]),
            &der(0x02, &[&[1]]),
            &p.algorithm,
            &der(0x30, &[]),
            &der(0x30, &[&p.not_before, &p.not_after]),
            &der(0x30, &[&p.subject]),
            &key_info,
            &extensions,
        ],
    )
}

fn issue(p: &Parts, sign: &dyn Fn(&[u8]) -> Vec<u8>) -> Vec<u8> {
    let tbs = signed_part(p);
    let signature = sign(&tbs);
    der(
        0x30,
        &[&tbs, &p.algorithm, &der(0x03, &[&[p.signature_unused_bits], &signature])],
    )
}

fn p256_key(seed: u8) -> (Vec<u8>, impl Fn(&[u8]) -> Vec<u8>) {
    let key = p256::ecdsa::SigningKey::from_slice(&[seed; 32]).unwrap();
    let public = key.verifying_key().to_encoded_point(false).as_bytes().to_vec();
    let sign = move |message: &[u8]| {
        let signature: p256::ecdsa::Signature = key.sign(message);
        signature.to_der().as_bytes().to_vec()
    };
    (public, sign)
}

fn p384_key(seed: u8) -> (Vec<u8>, impl Fn(&[u8]) -> Vec<u8>) {
    let key = p384::ecdsa::SigningKey::from_slice(&[seed; 48]).unwrap();
    let public = key.verifying_key().to_encoded_point(false).as_bytes().to_vec();
    let sign = move |message: &[u8]| {
        let signature: p384::ecdsa::Signature = key.sign(message);
        signature.to_der().as_bytes().to_vec()
    };
    (public, sign)
}

fn ed25519_key(seed: u8) -> (Vec<u8>, impl Fn(&[u8]) -> Vec<u8>) {
    let key = ed25519_dalek::SigningKey::from_bytes(&[seed; 32]);
    let public = key.verifying_key().to_bytes().to_vec();
    let sign = move |message: &[u8]| key.sign(message).to_bytes().to_vec();
    (public, sign)
}

fn rsa_key() -> rsa::RsaPrivateKey {
    let p = rsa::BigUint::from_bytes_be(&hex(RSA_P));
    let q = rsa::BigUint::from_bytes_be(&hex(RSA_Q));
    rsa::RsaPrivateKey::from_p_q(p, q, rsa::BigUint::from(65537u32)).unwrap()
}

fn rsa_public() -> Vec<u8> {
    rsa_key().to_public_key().to_pkcs1_der().unwrap().as_bytes().to_vec()
}

fn rsa_sign_sha256(message: &[u8]) -> Vec<u8> {
    rsa::pkcs1v15::SigningKey::<sha2::Sha256>::new(rsa_key()).sign(message).to_vec()
}

fn rsa_sign_sha384(message: &[u8]) -> Vec<u8> {
    rsa::pkcs1v15::SigningKey::<sha2::Sha384>::new(rsa_key()).sign(message).to_vec()
}

fn rsa_sign_sha512(message: &[u8]) -> Vec<u8> {
    rsa::pkcs1v15::SigningKey::<sha2::Sha512>::new(rsa_key()).sign(message).to_vec()
}

/// An issuer that is only used for its key.
fn issuer(key: &[u8]) -> Vec<u8> {
    issue(&parts(&plain_algorithm(ECDSA_SHA256), "issuer", key), &|_| vec![0])
}

fn common_name_of(r: &Result<HostnameResult, TlsError>) -> Option<String> {
    r.as_ref().unwrap().common_name.as_ref().map(|n| n.as_str().to_string())
}

fn error_of(r: Result<HostnameResult, TlsError>) -> TlsError {
    match r {
        Ok(_) => panic!("accepted"),
        Err(e) => e,
    }
}

fn san(names: &[&[u8]]) -> Vec<u8> {
    let list: Vec<Vec<u8>> = names.iter().map(|n| der(0x82, &[n])).collect();
    let list: Vec<&[u8]> = list.iter().map(|n| n.as_slice()).collect();
    der(
        0x30,
        &[
            &der(0x06, &[&[0x55, 0x1d, 0x11]]),
            &der(0x04, &[&der(0x30, &list)]),
        ],
    )
}

#[test]
fn certificates_of_another_encoder_are_verified() {
    let (root, leaf) = (hex(ROOT), hex(LEAF));
    let r = verify_certificate(&X509(&root), &X509(&leaf), NOW, Some("a.example.org"));
    assert_eq!(common_name_of(&r).as_deref(), Some("relay.example.com"));
    assert_eq!(r.as_ref().unwrap().san_match, Some(true));
    assert!(r.unwrap().matches_hostname("a.example.org"));

    let r = verify_certificate(&X509(&root), &X509(&leaf), NOW, Some("relay.example.com"));
    assert_eq!(r.as_ref().unwrap().san_match, Some(false));
    assert!(!r.unwrap().matches_hostname("relay.example.com"));

    let r = verify_certificate(&X509(&root), &X509(&root), None, Some("Test Root"));
    assert_eq!(r.as_ref().unwrap().san_match, None);
    assert!(r.unwrap().matches_hostname("Test Root"));
}

#[test]
fn fields_of_another_encoder_are_read() {
    let leaf = hex(LEAF);
    let cert = DecodedCertificate::from_der(&leaf).unwrap();
    assert_eq!(
        identify_algorithm(&cert.signature_algorithm),
        Some(SignatureAlgorithm::EcdsaP256Sha256)
    );
    let tbs = &cert.tbs_certificate;
    assert_eq!(tbs.subject.len(), 2);
    assert_eq!(tbs.subject[0][0].oid, [0x55, 0x04, 0x06]);
    assert_eq!(tbs.subject[0][0].value, b"SE");
    assert_eq!(tbs.subject[1][0].value, b"relay.example.com");
    assert_eq!(tbs.public_key.unwrap().len(), 65);
    assert_eq!(get_cert_time(tbs.not_before), 1704067200);
    assert_eq!(get_cert_time(tbs.not_after), 2666435415);
    assert_eq!(&tbs.extensions.unwrap()[..2], [0x30, 0x0c]);
    // The signed bytes start behind the header of the whole certificate.
    let signed = get_certificate_tlv_bytes(&leaf).unwrap();
    assert_eq!(signed, &leaf[4..4 + 4 + 0x142]);
    // A byte too many, or one too few, is an error.
    let longer = [leaf.as_slice(), &[0]].concat();
    assert!(DecodedCertificate::from_der(&longer).is_err());
    assert!(DecodedCertificate::from_der(&leaf[..leaf.len() - 1]).is_err());
    // The signed bytes can be had without the rest.
    assert_eq!(get_certificate_tlv_bytes(&leaf[..4 + 4 + 0x142]), Ok(signed));
    assert_eq!(
        get_certificate_tlv_bytes(&leaf[..4 + 4 + 0x141]),
        Err(TlsError::DecodeError)
    );
    assert_eq!(get_certificate_tlv_bytes(&[0x31, 0x00]), Err(TlsError::DecodeError));
    assert_eq!(get_certificate_tlv_bytes(&[0x30, 0x02, 0x31, 0x00]), Err(TlsError::DecodeError));
    assert_eq!(get_certificate_tlv_bytes(&[0x30, 0x00]), Err(TlsError::DecodeError));
    assert_eq!(get_certificate_tlv_bytes(&[]), Err(TlsError::DecodeError));
}

#[test]
fn certificates_follow_the_encoding_rules() {
    let (key, sign) = p256_key(1);
    let p = parts(&plain_algorithm(ECDSA_SHA256), "x", &key);
    let good = issue(&p, &sign);
    assert!(DecodedCertificate::from_der(&good).is_ok());
    let fails = |tbs: Vec<u8>| {
        let cert = der(0x30, &[&tbs, &p.algorithm, &der(0x03, &[&[0]])]);
        DecodedCertificate::from_der(&cert).is_err()
    };
    let key_info = der(0x30, &[&plain_algorithm(&[0x2a]), &der(0x03, &[&[0], &key])]);
    let period = der(0x30, &[&p.not_before, &p.not_after]);
    let name = der(0x30, &[&p.subject]);
    let serial = der(0x02, &[&[1]]);
    let whole = |version: &[u8], serial: &[u8], period: &[u8], key: &[u8], more: &[u8]| {
        der(0x30, &[version, serial, &p.algorithm, &name, period, &name, key, more])
    };
    // No version, no extensions
    assert!(!fails(whole(&[], &serial, &period, &key_info, &[])));
    // Versions
    assert!(!fails(whole(&der(0xa0, &[&der(2, &[&[0]])]), &serial, &period, &key_info, &[])));
    assert!(fails(whole(&der(0xa0, &[&der(2, &[&[3]])]), &serial, &period, &key_info, &[])));
    assert!(fails(whole(&der(0xa0, &[&der(4, &[&[2]])]), &serial, &period, &key_info, &[])));
    assert!(fails(whole(&der(0xa0, &[]), &serial, &period, &key_info, &[])));
    // Serial numbers use no more bytes than they need
    assert!(fails(whole(&[], &der(2, &[]), &period, &key_info, &[])));
    assert!(fails(whole(&[], &der(2, &[&[0, 1]]), &period, &key_info, &[])));
    assert!(!fails(whole(&[], &der(2, &[&[0, 0x80]]), &period, &key_info, &[])));
    assert!(fails(whole(&[], &der(2, &[&[0xff, 0x80]]), &period, &key_info, &[])));
    assert!(!fails(whole(&[], &der(2, &[&[0xff, 0x7f]]), &period, &key_info, &[])));
    // Times
    let one = der(0x30, &[&p.not_before]);
    assert!(fails(whole(&[], &serial, &one, &key_info, &[])));
    let odd = der(0x30, &[&p.not_before, &der(0x16, &[b"20540630123015Z"])]);
    assert!(fails(whole(&[], &serial, &odd, &key_info, &[])));
    for bad in [
        "200229000000", "20022900000Z", "210229000000Z", "241301000000Z", "240001000000Z",
        "240132000000Z", "240101240000Z", "240101006000Z", "240101000060Z", "24010100000aZ",
        "690101000000Z", "24010100000000Z",
    ] {
        let bad = der(0x30, &[&der(0x17, &[bad.as_bytes()]), &p.not_after]);
        assert!(fails(whole(&[], &serial, &bad, &key_info, &[])));
    }
    for bad in ["19691231235959Z", "20240230000000Z", "2024010100000Z", "20240101000000z"] {
        let bad = der(0x30, &[&p.not_before, &der(0x18, &[bad.as_bytes()])]);
        assert!(fails(whole(&[], &serial, &bad, &key_info, &[])));
    }
    // Bit strings
    for bad in [&[][..], &[8, 0][..], &[1][..]] {
        let bad = der(0x30, &[&plain_algorithm(&[0x2a]), &der(0x03, &[bad])]);
        assert!(fails(whole(&[], &serial, &period, &bad, &[])));
    }
    // Object identifiers
    let with_oid = |oid: &[u8]| {
        let info = der(0x30, &[&plain_algorithm(oid), &der(0x03, &[&[0], &key])]);
        fails(whole(&[], &serial, &period, &info, &[]))
    };
    assert!(!with_oid(&[0x77]));
    assert!(!with_oid(&[0x2a; 39]));
    assert!(with_oid(&[0x2a; 40]));
    assert!(!with_oid(&[0x2a, 0xff, 0xff, 0xff, 0xff, 0x7f]));
    assert!(!with_oid(&[0x2a, 0xff, 0xff, 0xff, 0xff, 0xff, 0x0f]));
    assert!(with_oid(&[0x2a, 0xff, 0xff, 0xff, 0xff, 0xff, 0x10]));
    assert!(with_oid(&[0x2a, 0x81, 0x80, 0x80, 0x80, 0x80, 0x80, 0x00]));
    for bad in [&[][..], &[0x2a, 0x80][..], &[0x78][..]] {
        let bad = der(0x30, &[&plain_algorithm(bad), &der(0x03, &[&[0], &key])]);
        assert!(fails(whole(&[], &serial, &period, &bad, &[])));
    }
    // Behind the key there is nothing but extensions
    let any = der(0x30, &[]);
    assert!(!fails(whole(&[], &serial, &period, &key_info, &der(0xa3, &[&any]))));
    assert!(fails(whole(&[], &serial, &period, &key_info, &der(0xa3, &[]))));
    assert!(fails(whole(&[], &serial, &period, &key_info, &der(0xa3, &[&any, &any]))));
    assert!(fails(whole(&[], &serial, &period, &key_info, &der(0xa1, &[&any]))));
    // Lengths use no more bytes than they need
    assert!(DecodedCertificate::from_der(&[0x30, 0x81, 0x03, 0x30, 0x01, 0x00]).is_err());
    let mut long = good.clone();
    long.splice(1..2, [0x83, 0x00, good.len() as u8]);
    assert!(DecodedCertificate::from_der(&long).is_err());
}

#[test]
fn names_follow_the_encoding_rules() {
    let (key, sign) = p256_key(1);
    let algorithm = plain_algorithm(ECDSA_SHA256);
    let mut p = parts(&algorithm, "x", &key);
    for bad in [
        der(0x30, &[&attribute(&[0x55, 0x04, 0x03], b"x")]),
        der(0x31, &[&der(0x30, &[&der(0x06, &[&[0x55, 0x04, 0x03]])])]),
        der(0x31, &[&der(0x30, &[&der(0x06, &[&[]]), &der(0x0c, &[b"x"])])]),
        der(0x31, &[&der(0x31, &[&der(0x06, &[&[0x2a]]), &der(0x0c, &[b"x"])])]),
        vec![0x31],
        vec![0x1f, 0x00],
    ] {
        p.subject = bad;
        assert!(DecodedCertificate::from_der(&issue(&p, &sign)).is_err());
    }
    // A tag number of several bytes starts with no zeros, is at least 31 and fits
    // in 32 bits.
    for bad in [
        &[0x9f, 0x1e, 0x00][..],
        &[0x9f, 0x80, 0x1f, 0x00],
        &[0x9f, 0x90, 0x80, 0x80, 0x80, 0x00, 0x00],
        &[0x9f, 0x81, 0x80, 0x80, 0x80, 0x80, 0x00, 0x00],
        &[0x9f, 0x81],
    ] {
        p.subject = der(0x31, &[&der(0x30, &[&der(0x06, &[&[0x2a]]), bad])]);
        assert!(DecodedCertificate::from_der(&issue(&p, &sign)).is_err());
    }
    for good in [&[0x9f, 0x1f, 0x00][..], &[0x9f, 0x8f, 0xff, 0xff, 0xff, 0x7f, 0x00]] {
        p.subject = der(0x31, &[&der(0x30, &[&der(0x06, &[&[0x2a]]), good])]);
        assert!(DecodedCertificate::from_der(&issue(&p, &sign)).is_ok());
    }
    // An attribute value may have any tag, also one with a large number.
    let wide = der(0x30, &[&der(0x06, &[&[0x2a]]), &[0x9f, 0x81, 0x00, 0x01, 0x05]]);
    p.subject = der(0x31, &[&wide]);
    let cert = issue(&p, &sign);
    let cert = DecodedCertificate::from_der(&cert).unwrap();
    assert_eq!(cert.tbs_certificate.subject[0][0].value, [0x05]);
}

#[test]
fn times_are_seconds_since_1970() {
    let at = |year, month, day, hour, minutes, seconds| {
        let dt = DateTime { year, month, day, hour, minutes, seconds };
        get_cert_time(Time::GeneralTime(dt))
    };
    assert_eq!(at(1970, 1, 1, 0, 0, 0), 0);
    assert_eq!(at(1999, 12, 31, 0, 0, 1), 946598401);
    assert_eq!(at(2000, 2, 29, 23, 59, 59), 951868799);
    assert_eq!(at(2100, 3, 1, 0, 0, 0), 4107542400);
    assert_eq!(at(9999, 12, 31, 23, 59, 59), 253402300799);
    let last = DateTime { year: 2049, month: 12, day: 31, hour: 23, minutes: 59, seconds: 59 };
    assert_eq!(get_cert_time(Time::UtcTime(last)), 2524607999);
}

#[test]
fn times_are_read_from_both_forms() {
    let (key, sign) = p256_key(1);
    let mut p = parts(&plain_algorithm(ECDSA_SHA256), "x", &key);
    p.not_before = der(0x17, &[b"700101000000Z"]);
    p.not_after = der(0x17, &[b"491231235959Z"]);
    let cert = issue(&p, &sign);
    let tbs = DecodedCertificate::from_der(&cert).unwrap().tbs_certificate;
    assert_eq!(get_cert_time(tbs.not_before), 0);
    assert_eq!(get_cert_time(tbs.not_after), 2524607999);
    p.not_before = der(0x17, &[b"000229235959Z"]);
    p.not_after = der(0x18, &[b"99991231235959Z"]);
    let cert = issue(&p, &sign);
    let tbs = DecodedCertificate::from_der(&cert).unwrap().tbs_certificate;
    assert_eq!(get_cert_time(tbs.not_before), 951868799);
    assert_eq!(get_cert_time(tbs.not_after), 253402300799);
    assert!(matches!(tbs.not_before, Time::UtcTime(_)));
    assert!(matches!(tbs.not_after, Time::GeneralTime(_)));
}

#[test]
fn earlier_dates_have_smaller_times() {
    let dates = [
        (2023, 12, 31, 23, 59, 59),
        (2024, 1, 1, 0, 0, 0),
        (2024, 2, 28, 0, 0, 0),
        (2024, 2, 29, 0, 0, 0),
        (2024, 3, 1, 0, 0, 0),
        (2024, 3, 1, 0, 1, 0),
    ];
    let times: Vec<u64> = dates
        .iter()
        .map(|&(year, month, day, hour, minutes, seconds)| {
            let dt = DateTime { year, month, day, hour, minutes, seconds };
            get_cert_time(Time::UtcTime(dt))
        })
        .collect();
    assert!(times.windows(2).all(|w| w[0] < w[1]));
}

#[test]
fn period_includes_its_ends() {
    let (root, leaf) = (hex(ROOT), hex(LEAF));
    let at = |now| verify_certificate(&X509(&root), &X509(&leaf), now, None);
    assert_eq!(error_of(at(Some(1704067199))), TlsError::InvalidCertificate);
    assert!(at(Some(1704067200)).is_ok());
    assert!(at(Some(2666435415)).is_ok());
    assert_eq!(error_of(at(Some(2666435416))), TlsError::InvalidCertificate);
    assert!(at(None).is_ok());
}

#[test]
fn every_algorithm_accepts_its_signatures_and_no_others() {
    let (p256, p256_sign) = p256_key(1);
    let (p384, p384_sign) = p384_key(2);
    let (ed, ed_sign) = ed25519_key(3);
    let rsa = rsa_public();
    let cases: Vec<(Vec<u8>, Vec<u8>, Box<dyn Fn(&[u8]) -> Vec<u8>>)> = vec![
        (plain_algorithm(ECDSA_SHA256), p256, Box::new(p256_sign)),
        (plain_algorithm(ECDSA_SHA384), p384, Box::new(p384_sign)),
        (plain_algorithm(ED25519), ed, Box::new(ed_sign)),
        (rsa_algorithm(11), rsa.clone(), Box::new(rsa_sign_sha256)),
        (rsa_algorithm(12), rsa.clone(), Box::new(rsa_sign_sha384)),
        (rsa_algorithm(13), rsa, Box::new(rsa_sign_sha512)),
    ];
    for (algorithm, key, sign) in &cases {
        let ca = issuer(key);
        let p = parts(algorithm, "host.example", b"any key");
        let good = issue(&p, sign);
        let r = verify_certificate(&X509(&ca), &X509(&good), NOW, Some("host.example"));
        assert_eq!(common_name_of(&r).as_deref(), Some("host.example"));
        // A signature of something else
        let bad = issue(&p, &|_| sign(b"something else"));
        let r = verify_certificate(&X509(&ca), &X509(&bad), NOW, None);
        assert_eq!(error_of(r), TlsError::InvalidCertificate);
        // No whole bytes
        let mut odd = parts(algorithm, "host.example", b"any key");
        odd.signature_unused_bits = 1;
        let odd = issue(&odd, sign);
        let r = verify_certificate(&X509(&ca), &X509(&odd), NOW, None);
        assert_eq!(error_of(r), TlsError::ParseError(ParseError::InvalidData));
        // A key that cannot be decoded
        let mut no_key = key.clone();
        if key.len() == 32 {
            // No point of the curve has this coordinate.
            no_key = vec![0; 32];
            no_key[0] = 2;
        } else {
            no_key.pop();
        }
        let ca = issuer(&no_key);
        let r = verify_certificate(&X509(&ca), &X509(&good), NOW, None);
        assert_eq!(error_of(r), TlsError::DecodeError);
    }
}

#[test]
fn signatures_that_cannot_be_decoded_are_parse_errors() {
    let (p256, _) = p256_key(1);
    let (p384, _) = p384_key(2);
    let (ed, _) = ed25519_key(3);
    for (oid, key) in [(ECDSA_SHA256, p256), (ECDSA_SHA384, p384), (ED25519, ed)] {
        let ca = issuer(&key);
        let p = parts(&plain_algorithm(oid), "x", &key);
        let cert = issue(&p, &|_| vec![0x30, 0x00]);
        let r = verify_certificate(&X509(&ca), &X509(&cert), NOW, None);
        assert_eq!(error_of(r), TlsError::ParseError(ParseError::InvalidData));
    }
    // Any bytes are a signature for RSA, though not a right one.
    let ca = issuer(&rsa_public());
    let cert = issue(&parts(&rsa_algorithm(11), "x", b"k"), &|_| vec![0x30, 0x00]);
    let r = verify_certificate(&X509(&ca), &X509(&cert), NOW, None);
    assert_eq!(error_of(r), TlsError::InvalidCertificate);
}

#[test]
fn key_is_decoded_before_signature() {
    let mut p = parts(&plain_algorithm(ECDSA_SHA256), "x", b"k");
    p.signature_unused_bits = 3;
    let cert = issue(&p, &|_| vec![1]);
    let r = verify_certificate(&X509(&issuer(b"no key")), &X509(&cert), NOW, None);
    assert_eq!(error_of(r), TlsError::DecodeError);
}

#[test]
fn unknown_algorithms_are_not_supported() {
    let (key, sign) = p256_key(1);
    let ca = issuer(&key);
    let with_null = der(0x30, &[&der(0x06, &[ECDSA_SHA256]), &der(0x05, &[])]);
    let without_null = plain_algorithm(&[0x2a, 0x86, 0x48, 0x86, 0xf7, 0x0d, 0x01, 0x01, 11]);
    let other = plain_algorithm(&[0x2a, 0x86, 0x48, 0xce, 0x3d, 0x04, 0x03, 0x04]);
    let odd_null = der(
        0x30,
        &[&rsa_algorithm(11)[2..13], &der(0x05, &[&[0]])],
    );
    for algorithm in [
        with_null, without_null, other, odd_null, rsa_algorithm(5), rsa_algorithm(4),
        rsa_algorithm(14),
    ] {
        let cert = issue(&parts(&algorithm, "x", &key), &sign);
        let r = verify_certificate(&X509(&ca), &X509(&cert), NOW, None);
        assert_eq!(error_of(r), TlsError::InvalidSignatureScheme);
    }
}

#[test]
fn only_encoded_certificates_can_be_verified() {
    let (root, leaf) = (hex(ROOT), hex(LEAF));
    let check = |a: CertificateEntryRef, b: CertificateEntryRef| {
        error_of(verify_certificate(&a, &b, NOW, None))
    };
    assert_eq!(check(RawPublicKey(&root), X509(&leaf)), TlsError::DecodeError);
    assert_eq!(check(X509(&root[1..]), X509(&leaf)), TlsError::DecodeError);
    assert_eq!(check(X509(&root), X509(&leaf[1..])), TlsError::DecodeError);
    assert_eq!(check(X509(&root), RawPublicKey(&leaf)), TlsError::InvalidCertificate);
    assert_eq!(check(X509(&[]), RawPublicKey(&leaf)), TlsError::DecodeError);
    // The leaf did not issue the root.
    assert_eq!(check(X509(&leaf), X509(&root)), TlsError::InvalidCertificate);
    // A key with bits left over
    let (key, _) = p256_key(1);
    let mut p = parts(&plain_algorithm(ECDSA_SHA256), "x", &key);
    p.key_unused_bits = 1;
    let odd = issue(&p, &|_| vec![]);
    assert_eq!(check(X509(&odd), X509(&leaf)), TlsError::DecodeError);
}

#[test]
fn last_common_name_counts() {
    let (key, sign) = p256_key(1);
    let ca = issuer(&key);
    let verify = |subject: Vec<u8>| {
        let mut p = parts(&plain_algorithm(ECDSA_SHA256), "x", &key);
        p.subject = subject;
        verify_certificate(&X509(&ca), &X509(&issue(&p, &sign)), NOW, None)
    };
    let r = verify([common_name(b"first"), common_name(b"second")].concat());
    assert_eq!(common_name_of(&r).as_deref(), Some("second"));
    let country = der(0x31, &[&attribute(&[0x55, 0x04, 0x06], b"SE")]);
    let r = verify([common_name(b"first"), country.clone()].concat());
    assert_eq!(common_name_of(&r).as_deref(), Some("first"));
    // A later name that is not text takes the earlier one away.
    let r = verify([common_name(b"first"), common_name(&[0xff])].concat());
    assert_eq!(common_name_of(&r), None);
    // Only the first attribute of a relative name counts.
    let second = der(
        0x31,
        &[&attribute(&[0x55, 0x04, 0x06], b"SE"), &attribute(&[0x55, 0x04, 0x03], b"no")],
    );
    assert_eq!(common_name_of(&verify(second)), None);
    assert_eq!(common_name_of(&verify(vec![])), None);
    // 64 bytes fit, 65 do not.
    let r = verify(common_name(&[b'a'; 64]));
    assert_eq!(common_name_of(&r).map(|n| n.len()), Some(64));
    let invalid = TlsError::ParseError(ParseError::InvalidData);
    assert_eq!(error_of(verify(common_name(&[b'a'; 65]))), invalid);
    assert_eq!(error_of(verify(der(0x31, &[]))), invalid);
}

#[test]
fn malformed_alternative_names_refuse_the_certificate() {
    let (key, sign) = p256_key(1);
    let ca = issuer(&key);
    let mut p = parts(&plain_algorithm(ECDSA_SHA256), "cn.example", &key);
    p.extensions = Some(san(&[b"a.example", b"*.b.example"]));
    let cert = issue(&p, &sign);
    let r = verify_certificate(&X509(&ca), &X509(&cert), NOW, Some("x.b.example")).unwrap();
    assert_eq!(r.san_match, Some(true));
    let r = verify_certificate(&X509(&ca), &X509(&cert), NOW, Some("cn.example")).unwrap();
    assert_eq!(r.san_match, Some(false));
    let r = verify_certificate(&X509(&ca), &X509(&cert), NOW, None).unwrap();
    assert_eq!(r.san_match, Some(false));
    p.extensions = Some(vec![0x30, 0x20, 0x06, 0x03, 0x55]);
    let cert = issue(&p, &sign);
    let r = verify_certificate(&X509(&ca), &X509(&cert), NOW, None);
    assert_eq!(error_of(r), TlsError::DecodeError);
}

#[test]
fn keys_of_the_wrong_length_are_told_apart() {
    let (key, _) = p256_key(1);
    let (_, ed_sign) = ed25519_key(3);
    let ca = issuer(&key);
    let cert = issue(&parts(&plain_algorithm(ED25519), "x", &key), &ed_sign);
    assert!(try_verify_certificate(&X509(&ca), &X509(&cert), NOW, None).is_none());
    let r = try_verify_certificate_with::<HardwareRsa<Device>>(&X509(&ca), &X509(&cert), NOW, None);
    assert!(r.is_none());
    // An error that comes first is reported.
    let r = try_verify_certificate(&X509(&ca), &X509(&cert), Some(0), None).unwrap();
    assert_eq!(error_of(r), TlsError::InvalidCertificate);
    let (root, leaf) = (hex(ROOT), hex(LEAF));
    let r = try_verify_certificate(&X509(&root), &X509(&leaf), NOW, None);
    assert!(r.unwrap().is_ok());
}

#[test]
fn examination_leaves_only_the_signature() {
    let (root, leaf) = (hex(ROOT), hex(LEAF));
    let signed = examine_certificate(&X509(&root), &X509(&leaf), NOW, Some("example.net"));
    let signed = signed.unwrap();
    let authority = DecodedCertificate::from_der(&root).unwrap();
    assert_eq!(Some(signed.key), authority.tbs_certificate.public_key);
    assert_eq!(signed.message, get_certificate_tlv_bytes(&leaf).unwrap());
    assert_eq!(signed.names.san_match, Some(true));
    let algorithm = identify_algorithm(&signed.algorithm).unwrap();
    let check = |key, message, signature| {
        check_signature::<SoftwareRsa>(algorithm, key, message, signature)
    };
    assert_eq!(check(signed.key, signed.message, signed.signature), SignatureStatus::Valid);
    assert_eq!(check(signed.key, b"", signed.signature), SignatureStatus::Mismatch);
    assert_eq!(check(signed.key, signed.message, None), SignatureStatus::BadSignature);
    assert_eq!(check(b"", signed.message, None), SignatureStatus::BadKey);
    assert_eq!(
        check_signature::<SoftwareRsa>(
            SignatureAlgorithm::RsaPss(tls_pki::rsa_backend::HashAlgorithm::Sha1),
            b"",
            b"",
            None
        ),
        SignatureStatus::Unsupported
    );
}

#[test]
fn first_fault_of_a_signature_is_reported() {
    assert_eq!(signature_status(false, false, false, false), SignatureStatus::Unsupported);
    assert_eq!(signature_status(true, false, false, false), SignatureStatus::BadKey);
    assert_eq!(signature_status(true, true, false, false), SignatureStatus::BadSignature);
    assert_eq!(signature_status(true, true, true, false), SignatureStatus::Mismatch);
    assert_eq!(signature_status(true, true, true, true), SignatureStatus::Valid);
    let conclude = |status| {
        conclude_certificate(status, HostnameResult { common_name: None, san_match: Some(true) })
    };
    assert_eq!(conclude(SignatureStatus::Valid).unwrap().san_match, Some(true));
    assert_eq!(error_of(conclude(SignatureStatus::Mismatch)), TlsError::InvalidCertificate);
    assert_eq!(
        error_of(conclude(SignatureStatus::BadSignature)),
        TlsError::ParseError(ParseError::InvalidData)
    );
    assert_eq!(error_of(conclude(SignatureStatus::BadKey)), TlsError::DecodeError);
    assert_eq!(
        error_of(conclude(SignatureStatus::Unsupported)),
        TlsError::InvalidSignatureScheme
    );
}

/// Hooks that accept the key "key", the signature "hash name" and any message.
struct Device;

impl RsaHooks for Device {
    fn verify_rsa_pkcs1v15_sha1(key: &[u8], signature: &[u8], message: &[u8]) -> bool {
        key == b"key" && signature == b"1" && message[0] == 0x30
    }

    fn verify_rsa_pkcs1v15_sha256(key: &[u8], signature: &[u8], message: &[u8]) -> bool {
        key == b"key" && signature == b"256" && message[0] == 0x30
    }

    fn verify_rsa_pkcs1v15_sha384(key: &[u8], signature: &[u8], message: &[u8]) -> bool {
        key == b"key" && signature == b"384" && message[0] == 0x30
    }

    fn verify_rsa_pkcs1v15_sha512(key: &[u8], signature: &[u8], message: &[u8]) -> bool {
        key == b"key" && signature == b"512" && message[0] == 0x30
    }

    fn verify_rsa_pss_sha256(_: &[u8], _: &[u8], _: &[u8]) -> bool {
        panic!("not for certificates")
    }

    fn verify_rsa_pss_sha384(_: &[u8], _: &[u8], _: &[u8]) -> bool {
        panic!("not for certificates")
    }

    fn verify_rsa_pss_sha512(_: &[u8], _: &[u8], _: &[u8]) -> bool {
        panic!("not for certificates")
    }
}

#[test]
fn hardware_decides_on_rsa_signatures() {
    let ca = issuer(b"key");
    for (n, name) in [(5, "1"), (11, "256"), (12, "384"), (13, "512")] {
        let mut p = parts(&rsa_algorithm(n), "x", b"k");
        let good = issue(&p, &|_| name.as_bytes().to_vec());
        let bad = issue(&p, &|_| b"0".to_vec());
        p.signature_unused_bits = 1;
        let odd = issue(&p, &|_| name.as_bytes().to_vec());
        let verify = |ca: &[u8], cert: &[u8]| {
            verify_certificate_with::<HardwareRsa<Device>>(&X509(ca), &X509(cert), NOW, None)
        };
        assert_eq!(common_name_of(&verify(&ca, &good)).as_deref(), Some("x"));
        assert_eq!(error_of(verify(&ca, &bad)), TlsError::InvalidCertificate);
        assert_eq!(error_of(verify(&issuer(b"other"), &good)), TlsError::InvalidCertificate);
        assert_eq!(
            error_of(verify(&ca, &odd)),
            TlsError::ParseError(ParseError::InvalidData)
        );
    }
    // The other algorithms do not go to the device.
    let (root, leaf) = (hex(ROOT), hex(LEAF));
    let r = verify_certificate_with::<HardwareRsa<Device>>(&X509(&root), &X509(&leaf), NOW, None);
    assert!(r.is_ok());
}

#[test]
fn mixed_backend_leaves_only_sha1_to_hardware() {
    let verify = |ca: &[u8], cert: &[u8]| {
        try_verify_certificate_with::<MixedRsa<Device>>(&X509(ca), &X509(cert), NOW, None).unwrap()
    };
    // The device takes the key that the software cannot decode.
    let ca = issuer(b"key");
    let mut p = parts(&rsa_algorithm(5), "x", b"k");
    let good = issue(&p, &|_| b"1".to_vec());
    assert_eq!(common_name_of(&verify(&ca, &good)).as_deref(), Some("x"));
    let bad = issue(&p, &|_| b"256".to_vec());
    assert_eq!(error_of(verify(&ca, &bad)), TlsError::InvalidCertificate);
    p.signature_unused_bits = 1;
    let odd = issue(&p, &|_| b"1".to_vec());
    assert_eq!(error_of(verify(&ca, &odd)), TlsError::ParseError(ParseError::InvalidData));
    // The other hashes are verified in software.
    let rsa = issuer(&rsa_public());
    for (n, name, sign) in [
        (11, "256", rsa_sign_sha256 as fn(&[u8]) -> Vec<u8>),
        (12, "384", rsa_sign_sha384),
        (13, "512", rsa_sign_sha512),
    ] {
        let p = parts(&rsa_algorithm(n), "x", b"k");
        assert!(verify(&rsa, &issue(&p, &sign)).is_ok());
        let for_device = issue(&p, &|_| name.as_bytes().to_vec());
        assert_eq!(error_of(verify(&ca, &for_device)), TlsError::DecodeError);
        assert_eq!(error_of(verify(&rsa, &for_device)), TlsError::InvalidCertificate);
    }
}
