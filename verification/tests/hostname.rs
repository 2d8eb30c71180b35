use tls_pki::hostname::{hostname_matches, HostnameResult};

#[test]
fn test_hostname_matches_exact() {
    assert!(hostname_matches("example.com", "example.com"));
    assert!(hostname_matches("Example.COM", "example.com"));
    assert!(!hostname_matches("example.com", "other.com"));
}

#[test]
fn test_hostname_matches_wildcard() {
    assert!(hostname_matches("*.example.com", "foo.example.com"));
    assert!(hostname_matches("*.example.com", "relay.example.com"));
    assert!(!hostname_matches("*.example.com", "example.com"));
    assert!(!hostname_matches("*.example.com", "foo.bar.example.com"));
}

#[test]
fn test_hostname_matches_case_insensitive() {
    assert!(hostname_matches("Example.COM", "example.com"));
    assert!(hostname_matches("example.com", "EXAMPLE.COM"));
    assert!(hostname_matches("*.Example.COM", "relay.example.com"));
    assert!(hostname_matches("*.EXAMPLE.COM", "Relay.Example.Com"));
}

#[test]
fn test_hostname_result_san_takes_precedence() {
    // SANs present and matched: CN is ignored per RFC 6125
    let result = HostnameResult {
        common_name: Some(heapless::String::try_from("wrong.com").unwrap()),
        san_match: Some(true),
    };
    assert!(result.matches_hostname("anything.com"));

    // SANs present but didn't match: CN is still ignored
    let result = HostnameResult {
        common_name: Some(heapless::String::try_from("wrong.com").unwrap()),
        san_match: Some(false),
    };
    assert!(!result.matches_hostname("wrong.com"));
}

#[test]
fn test_hostname_result_cn_fallback() {
    // No SANs: fall back to CN
    let result = HostnameResult {
        common_name: Some(heapless::String::try_from("example.com").unwrap()),
        san_match: None,
    };
    assert!(result.matches_hostname("example.com"));
    assert!(!result.matches_hostname("other.com"));

    // No SANs, no CN: nothing matches
    let result = HostnameResult {
        common_name: None,
        san_match: None,
    };
    assert!(!result.matches_hostname("example.com"));
}

#[test]
fn wildcard_stands_for_one_label_that_is_not_empty() {
    assert!(!hostname_matches("*.example.com", ".example.com"));
    assert!(hostname_matches("*.example.com", "x.example.com"));
    assert!(!hostname_matches("*.example.com", "xexample.com"));
    assert!(!hostname_matches("*example.com", "fooexample.com"));
    assert!(!hostname_matches("f*.example.com", "foo.example.com"));
    assert!(hostname_matches("*.example.com", "*.example.com"));
    assert!(!hostname_matches("foo.example.com", "*.example.com"));
    assert!(hostname_matches("*.", "a."));
    assert!(!hostname_matches("*.", "."));
    assert!(!hostname_matches("*", "a"));
}

#[test]
fn empty_names_match_only_each_other() {
    assert!(hostname_matches("", ""));
    assert!(!hostname_matches("", "example.com"));
    assert!(!hostname_matches("example.com", ""));
    assert!(!hostname_matches("*.example.com", ""));
}

#[test]
fn only_ascii_letters_are_folded() {
    assert!(!hostname_matches("a@b", "a`b"));
    assert!(!hostname_matches("a[b", "a{b"));
    assert!(hostname_matches("xn--Z", "XN--z"));
    assert!(!hostname_matches("\u{c9}.com", "\u{e9}.com"));
    assert!(hostname_matches("\u{e9}.com", "\u{e9}.COM"));
    // The suffix of the pattern has the length of half a character more.
    assert!(!hostname_matches("*.bc", "a\u{e9}c"));
    assert!(hostname_matches("*.\u{e9}c", "a.\u{e9}C"));
}
