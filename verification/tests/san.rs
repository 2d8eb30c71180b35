use tls_pki::san::{read_tag_len, san_matches_hostname};

/// A DER extensions blob with one SAN extension that holds the dNSName entries.
fn build_san_extension(dns_names: &[&[u8]]) -> ([u8; 128], usize) {
    let mut der = [0u8; 128];
    let mut i = 0;

    // Calculate GeneralNames content length
    let gn_content_len: usize = dns_names.iter().map(|n| 2 + n.len()).sum();
    let oct_len = 2 + gn_content_len; // SEQUENCE tag+len + content
    let ext_len = 5 + 2 + oct_len; // OID(5) + OCTET STRING tag+len + content

    let head = [
        0x30, ext_len as u8, // Extension SEQUENCE
        0x06, 0x03, 0x55, 0x1d, 0x11, // OID 2.5.29.17
        0x04, oct_len as u8, // OCTET STRING
        0x30, gn_content_len as u8, // GeneralNames SEQUENCE
    ];
    der[..head.len()].copy_from_slice(&head);
    i += head.len();
    // dNSName entries
    for name in dns_names {
        der[i] = 0x82;
        der[i + 1] = name.len() as u8;
        i += 2;
        der[i..i + name.len()].copy_from_slice(name);
        i += name.len();
    }

    (der, i)
}

#[test]
fn test_san_matches_hostname_match() {
    let (der, len) = build_san_extension(&[b"*.example.com", b"example.com"]);
    // Wildcard match
    assert_eq!(san_matches_hostname(&der[..len], Some("relay.example.com")), Ok(Some(true)));
    // Exact match
    assert_eq!(san_matches_hostname(&der[..len], Some("example.com")), Ok(Some(true)));
    // No match
    assert_eq!(san_matches_hostname(&der[..len], Some("other.com")), Ok(Some(false)));
}

#[test]
fn test_san_matches_hostname_no_san_extension() {
    // Extension with OID 2.5.29.19 (basic constraints), not SAN
    let der: &[u8] = &[
        0x30, 0x0a,
        0x06, 0x03, 0x55, 0x1d, 0x13,
        0x04, 0x03,
        0x30, 0x01, 0x01,
    ];
    assert_eq!(san_matches_hostname(der, Some("example.com")), Ok(None));
}

#[test]
fn test_san_matches_hostname_no_hostname() {
    // When hostname is None, SANs are checked for presence but can't match
    let (der, len) = build_san_extension(&[b"example.com"]);
    assert_eq!(san_matches_hostname(&der[..len], None), Ok(Some(false)));
}

#[test]
fn test_san_rejects_null_bytes() {
    // SAN with embedded null byte should be skipped
    let (der, len) = build_san_extension(&[b"example.com\0.evil.com"]);
    assert_eq!(san_matches_hostname(&der[..len], Some("example.com")), Ok(Some(false)));
}

#[test]
fn test_san_malformed_der_returns_error() {
    // Truncated extension: SEQUENCE claims 0x20 bytes but only 3 follow
    let der: &[u8] = &[0x30, 0x20, 0x06, 0x03, 0x55];
    assert_eq!(san_matches_hostname(der, Some("example.com")), Err(()));

    // Extension with SAN OID but truncated before OCTET STRING content
    let der: &[u8] = &[
        0x30, 0x08,
        0x06, 0x03, 0x55, 0x1d, 0x11, // SAN OID
        0x04, // OCTET STRING tag, but missing length byte
    ];
    assert_eq!(san_matches_hostname(der, Some("example.com")), Err(()));

    // Completely empty: no extensions parsed, no error
    assert_eq!(san_matches_hostname(&[], Some("example.com")), Ok(None));
}

#[test]
fn test_read_tag_len() {
    // Short form
    assert_eq!(read_tag_len(&[0x30, 0x05], 0), Some((0x30, 5, 2)));
    // Long form 1 byte
    assert_eq!(read_tag_len(&[0x30, 0x81, 0x80], 0), Some((0x30, 128, 3)));
    // Long form 2 bytes
    assert_eq!(read_tag_len(&[0x30, 0x82, 0x01, 0x00], 0), Some((0x30, 256, 4)));
    // Too short
    assert_eq!(read_tag_len(&[0x30], 0), None);
}

#[test]
fn other_length_forms_are_not_read() {
    assert_eq!(read_tag_len(&[], 0), None);
    assert_eq!(read_tag_len(&[0x30, 0x80], 0), None);
    assert_eq!(read_tag_len(&[0x30, 0x81], 0), None);
    assert_eq!(read_tag_len(&[0x30, 0x82, 0x01], 0), None);
    assert_eq!(read_tag_len(&[0x30, 0x83, 0x01, 0x00, 0x00], 0), None);
    assert_eq!(read_tag_len(&[0x30, 0xff, 0x01, 0x00, 0x00], 0), None);
    assert_eq!(read_tag_len(&[0x00, 0x30, 0x05], 1), Some((0x30, 5, 2)));
    assert_eq!(read_tag_len(&[0x30, 0x05], 1), None);
    assert_eq!(read_tag_len(&[0x30, 0x05], 2), None);
    assert_eq!(read_tag_len(&[0x30, 0x05], usize::MAX), None);
    assert_eq!(read_tag_len(&[0x30, 0x7f], 0), Some((0x30, 127, 2)));
    assert_eq!(read_tag_len(&[0x30, 0x81, 0x01], 0), Some((0x30, 1, 3)));
    assert_eq!(read_tag_len(&[0x30, 0x82, 0xff, 0xff], 0), Some((0x30, 65535, 4)));
}

/// An element with the given tag and content, in the shortest form.
fn element(tag: u8, content: &[u8]) -> Vec<u8> {
    let n = content.len();
    let mut out = vec![tag];
    if n < 0x80 {
        out.push(n as u8);
    } else if n < 0x100 {
        out.extend([0x81, n as u8]);
    } else {
        out.extend([0x82, (n >> 8) as u8, n as u8]);
    }
    out.extend(content);
    out
}

const SAN: &[u8] = &[0x06, 0x03, 0x55, 0x1d, 0x11];

fn names(list: &[&[u8]]) -> Vec<u8> {
    list.iter().flat_map(|n| element(0x82, n)).collect()
}

fn extension(head: &[u8], list: &[u8]) -> Vec<u8> {
    let value = element(0x04, &element(0x30, list));
    element(0x30, &[head, &value].concat())
}

#[test]
fn names_are_read_back_in_all_length_forms() {
    let host = Some("host.example");
    for count in [0, 3, 10, 40, 1000] {
        let filler: Vec<Vec<u8>> = (0..count).map(|i| format!("n{i}.example").into()).collect();
        let mut list: Vec<&[u8]> = filler.iter().map(|n| n.as_slice()).collect();
        let without = extension(SAN, &names(&list));
        assert_eq!(san_matches_hostname(&without, host), Ok(Some(false)));
        list.push(b"HOST.example");
        let with = extension(SAN, &names(&list));
        assert_eq!(san_matches_hostname(&with, host), Ok(Some(true)));
        assert_eq!(san_matches_hostname(&with, None), Ok(Some(false)));
    }
}

#[test]
fn critical_flag_is_skipped() {
    let host = Some("a.example");
    let critical = [SAN, &[0x01, 0x01, 0xff]].concat();
    let der = extension(&critical, &names(&[b"a.example"]));
    assert_eq!(san_matches_hostname(&der, host), Ok(Some(true)));
    // The flag must lie inside the extension, and a value must follow it.
    let over = [&[0x30, 0x07], SAN, &[0x01, 0x01, 0xff]].concat();
    assert_eq!(san_matches_hostname(&over, host), Err(()));
    let alone = element(0x30, &critical);
    assert_eq!(san_matches_hostname(&alone, host), Err(()));
    let nothing = element(0x30, SAN);
    assert_eq!(san_matches_hostname(&nothing, host), Err(()));
}

#[test]
fn other_extensions_are_skipped() {
    let host = Some("a.example");
    let other = extension(&[0x06, 0x03, 0x55, 0x1d, 0x13], &names(&[b"b.example"]));
    let san = extension(SAN, &names(&[b"a.example"]));
    assert_eq!(san_matches_hostname(&other, host), Ok(None));
    assert_eq!(san_matches_hostname(&[other.clone(), san.clone()].concat(), host), Ok(Some(true)));
    // Only the first extension for alternative names counts.
    let first = extension(SAN, &names(&[b"b.example"]));
    assert_eq!(san_matches_hostname(&[first, san.clone()].concat(), host), Ok(Some(false)));
    // Elements that are no sequence are skipped, and so are longer identifiers.
    let integer = [0x02, 0x01, 0x05];
    assert_eq!(san_matches_hostname(&[&integer[..], &san].concat(), host), Ok(Some(true)));
    let longer = extension(&[0x06, 0x04, 0x55, 0x1d, 0x11, 0x00], &names(&[b"a.example"]));
    assert_eq!(san_matches_hostname(&longer, host), Ok(None));
    let no_identifier = [0x30, 0x02, 0x05, 0x00];
    assert_eq!(san_matches_hostname(&no_identifier, host), Ok(None));
    // What follows the names is not read.
    assert_eq!(san_matches_hostname(&[&san[..], &[0x30]].concat(), host), Ok(Some(true)));
    assert_eq!(san_matches_hostname(&[&other[..], &[0x30]].concat(), host), Err(()));
}

#[test]
fn identifiers_must_lie_inside_their_extension() {
    let host = Some("example.com");
    assert_eq!(san_matches_hostname(&[0x30, 0x02, 0x06, 0x05], host), Err(()));
    assert_eq!(san_matches_hostname(&[0x30, 0x04, 0x06, 0x03, 0x55, 0x1d], host), Err(()));
    // The bytes behind the extension do not help.
    let san = extension(SAN, &names(&[b"example.com"]));
    let over = [&[0x30, 0x04, 0x06, 0x03, 0x55, 0x1d], &san[..]].concat();
    assert_eq!(san_matches_hostname(&over, host), Err(()));
    let other = [&[0x30, 0x02, 0x05, 0x01], &san[..]].concat();
    assert_eq!(san_matches_hostname(&other, host), Err(()));
}

#[test]
fn empty_sequences_are_skipped() {
    let host = Some("example.com");
    let san = extension(SAN, &names(&[b"example.com"]));
    for empty in [&[0x30, 0x00][..], &[0x30, 0x81, 0x00], &[0x30, 0x82, 0x00, 0x00]] {
        let before = [empty, &san[..]].concat();
        assert_eq!(san_matches_hostname(&before, host), Ok(Some(true)));
        assert_eq!(san_matches_hostname(&before, Some("other.com")), Ok(Some(false)));
        let twice = [empty, empty, &san[..]].concat();
        assert_eq!(san_matches_hostname(&twice, host), Ok(Some(true)));
        let behind = [&san[..], empty].concat();
        assert_eq!(san_matches_hostname(&behind, host), Ok(Some(true)));
        // What stands behind it is no part of it.
        let identifier = [empty, SAN].concat();
        assert_eq!(san_matches_hostname(&identifier, host), Ok(None));
        // A header must follow.
        assert_eq!(san_matches_hostname(empty, host), Err(()));
        assert_eq!(san_matches_hostname(&[empty, &[0x30]].concat(), host), Err(()));
    }
}

#[test]
fn only_dns_names_match() {
    let host = Some("a.example");
    let email = element(0x81, b"a.example");
    let der = extension(SAN, &email);
    assert_eq!(san_matches_hostname(&der, host), Ok(Some(false)));
    let der = extension(SAN, &[email, names(&[b"a.example"])].concat());
    assert_eq!(san_matches_hostname(&der, host), Ok(Some(true)));
    // Bytes that are no text do not match, and do not stop the search.
    let der = extension(SAN, &names(&[b"\xff", b"a\0.example", b"a.example"]));
    assert_eq!(san_matches_hostname(&der, host), Ok(Some(true)));
    let der = extension(SAN, &names(&[b"\xff", b"\0"]));
    assert_eq!(san_matches_hostname(&der, Some("\0")), Ok(Some(false)));
}

#[test]
fn malformed_names_are_errors_up_to_a_match() {
    let host = Some("a.example");
    let cut = [0x82, 0x20, b'a'];
    let der = extension(SAN, &cut);
    assert_eq!(san_matches_hostname(&der, host), Err(()));
    let der = extension(SAN, &[&names(&[b"b.example"])[..], &cut].concat());
    assert_eq!(san_matches_hostname(&der, host), Err(()));
    let der = extension(SAN, &[&names(&[b"a.example"])[..], &cut].concat());
    assert_eq!(san_matches_hostname(&der, host), Ok(Some(true)));
    // The value must be an octet string with a sequence in it.
    let value = element(0x30, &names(&[b"a.example"]));
    let der = element(0x30, &[SAN, &element(0x05, &value)].concat());
    assert_eq!(san_matches_hostname(&der, host), Err(()));
    let der = element(0x30, &[SAN, &element(0x04, &value[2..])].concat());
    assert_eq!(san_matches_hostname(&der, host), Err(()));
    let der = element(0x30, &[SAN, &element(0x04, &value[..value.len() - 1])].concat());
    assert_eq!(san_matches_hostname(&der, host), Err(()));
    let der = element(0x30, &[SAN, &element(0x04, &[])].concat());
    assert_eq!(san_matches_hostname(&der, host), Err(()));
}
