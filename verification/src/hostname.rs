//! Comparison of certificate names with the name of the host.

use vstd::prelude::*;
use vstd::string::StringSliceAdditionalSpecFns;
use crate::buffers::{name_as_str, name_bytes};

verus! {

/// A byte with ASCII upper-case letters made lower case.
pub open spec fn ascii_lower(b: u8) -> u8 {
    if 0x41 <= b <= 0x5a {
        (b + 0x20) as u8
    } else {
        b
    }
}

/// The two texts differ in the case of ASCII letters at most.
pub open spec fn same_ignoring_case(a: Seq<u8>, b: Seq<u8>) -> bool {
    a.len() == b.len() && forall|i: int|
        0 <= i < a.len() ==> #[trigger] ascii_lower(a[i]) == ascii_lower(b[i])
}

/// The pattern is a star, a dot and a suffix; the host is one label that is not
/// empty and holds no dot, a dot, and the same suffix.
pub open spec fn wildcard_matches(pattern: Seq<u8>, host: Seq<u8>) -> bool {
    let cut = host.len() - (pattern.len() - 2);
    &&& pattern.len() >= 2
    &&& pattern[0] == 0x2a
    &&& pattern[1] == 0x2e
    &&& cut > 1
    &&& same_ignoring_case(host.skip(cut), pattern.skip(2))
    &&& host[cut - 1] == 0x2e
    &&& !host.take(cut - 1).contains(0x2e)
}

/// A name of a certificate covers the host: it is the host's own name, or a
/// wildcard for its one leading label.
pub open spec fn name_covers(pattern: Seq<u8>, host: Seq<u8>) -> bool {
    same_ignoring_case(pattern, host) || wildcard_matches(pattern, host)
}

fn lower(b: u8) -> (r: u8)
    ensures
        r == ascii_lower(b),
{
    if b >= 0x41 && b <= 0x5a {
        b + 0x20
    } else {
        b
    }
}

/// Whether `b` is what `a` holds from `start` on, the case of ASCII letters
/// aside.
fn tail_eq_ignore_case(a: &[u8], start: usize, b: &[u8], b_start: usize) -> (r: bool)
    requires
        start <= a@.len(),
        b_start <= b@.len(),
    ensures
        r == same_ignoring_case(a@.skip(start as int), b@.skip(b_start as int)),
{
    if a.len() - start != b.len() - b_start {
        return false;
    }
    let n: usize = a.len() - start;
    let mut i: usize = 0;
    while i < n
        invariant
            i <= n,
            start + n == a.len(),
            b_start + n == b.len(),
            forall|j: int| #![auto]
                0 <= j < i ==> ascii_lower(a@.skip(start as int)[j]) == ascii_lower(
                    b@.skip(b_start as int)[j],
                ),
        decreases n - i,
    {
        if lower(a[start + i]) != lower(b[b_start + i]) {
            assert(ascii_lower(a@.skip(start as int)[i as int]) != ascii_lower(
                b@.skip(b_start as int)[i as int],
            ));
            return false;
        }
        i = i + 1;
    }
    true
}

/// Whether there is a dot before position `end`.
fn holds_dot(text: &[u8], end: usize) -> (r: bool)
    requires
        end <= text@.len(),
    ensures
        r == text@.take(end as int).contains(0x2e),
{
    let mut i: usize = 0;
    while i < end
        invariant
            i <= end <= text@.len(),
            forall|j: int| 0 <= j < i ==> text@[j] != 0x2e,
        decreases end - i,
    {
        if text[i] == 0x2e {
            assert(text@.take(end as int)[i as int] == 0x2e);
            return true;
        }
        i = i + 1;
    }
    false
}

/// Check if a certificate name (possibly wildcard) matches a hostname.
///
/// Case-insensitive per RFC 6125. Supports `*.example.com` matching
/// `foo.example.com` but not `example.com` or `foo.bar.example.com`
/// (single-level wildcard only, per RFC 6125 section 6.4.3).
pub fn hostname_matches(pattern: &str, hostname: &str) -> (r: bool)
    ensures
        r == name_covers(pattern.spec_bytes(), hostname.spec_bytes()),
{
    let p: &[u8] = pattern.as_bytes();
    let h: &[u8] = hostname.as_bytes();
    assert(p@.skip(0) =~= p@);
    assert(h@.skip(0) =~= h@);
    if tail_eq_ignore_case(p, 0, h, 0) {
        return true;
    }
    if p.len() < 2 || p[0] != 0x2a || p[1] != 0x2e {
        return false;
    }
    let suffix_len: usize = p.len() - 2;
    // At least one byte and a dot come before the suffix.
    if h.len() < 2 || h.len() - 2 < suffix_len {
        return false;
    }
    let cut: usize = h.len() - suffix_len;
    if !tail_eq_ignore_case(h, cut, p, 2) || h[cut - 1] != 0x2e {
        return false;
    }
    !holds_dot(h, cut - 1)
}

/// What a certificate says about the host, as mathematical values.
pub struct HostnameView {
    /// The bytes of the common name, where the certificate has one.
    pub common_name: Option<Seq<u8>>,
    /// Whether an alternative name covered the host, where there are any.
    pub san_match: Option<bool>,
}

impl HostnameView {
    /// The names of a certificate that says nothing.
    pub open spec fn nothing() -> Self {
        HostnameView { common_name: None, san_match: None }
    }

    /// The host is covered: by an alternative name where the certificate has any,
    /// and by the common name otherwise.
    pub open spec fn covers(self, host: Seq<u8>) -> bool {
        match self.san_match {
            Some(result) => result,
            None => self.common_name matches Some(cn) && name_covers(cn, host),
        }
    }
}

/// Result of hostname verification against a certificate.
pub struct HostnameResult {
    /// The common name of the subject.
    pub common_name: Option<heapless::String<64>>,
    /// None = no SANs found, Some(true) = SAN matched, Some(false) = SANs present but no match.
    pub san_match: Option<bool>,
}

impl View for HostnameResult {
    type V = HostnameView;

    open spec fn view(&self) -> HostnameView {
        HostnameView {
            common_name: match self.common_name {
                Some(cn) => Some(name_bytes(cn)),
                None => None,
            },
            san_match: self.san_match,
        }
    }
}

impl HostnameResult {
    /// Check if a hostname matches this certificate's identity.
    ///
    /// Per RFC 6125: if SANs are present, only SANs are checked (CN is ignored).
    pub fn matches_hostname(&self, hostname: &str) -> (r: bool)
        ensures
            r == self@.covers(hostname.spec_bytes()),
            self.san_match matches Some(result) ==> r == result,
            self.san_match is None ==> r == (self.common_name matches Some(cn) && name_covers(
                name_bytes(cn),
                hostname.spec_bytes(),
            )),
    {
        match self.san_match {
            Some(result) => result,
            None => match &self.common_name {
                Some(cn) => hostname_matches(name_as_str(cn), hostname),
                None => false,
            },
        }
    }
}

} // verus!
