//! What holds of the library as a whole.

use vstd::prelude::*;
use crate::hostname::{ascii_lower, name_covers, same_ignoring_case, wildcard_matches, HostnameView};

verus! {

/// The dot that separates labels.
pub open spec fn dot() -> Seq<u8> {
    seq![0x2eu8]
}

/// The pattern with a star for the first label.
pub open spec fn wildcard(suffix: Seq<u8>) -> Seq<u8> {
    seq![0x2au8, 0x2eu8] + suffix
}

/// Matching is case-insensitive: names and hosts that differ in the case of ASCII
/// letters only are treated alike.
pub proof fn law_case_is_ignored(p1: Seq<u8>, p2: Seq<u8>, h1: Seq<u8>, h2: Seq<u8>)
    requires
        same_ignoring_case(p1, p2),
        same_ignoring_case(h1, h2),
    ensures
        name_covers(p1, h1) == name_covers(p2, h2),
{
    lemma_same_symmetric(p1, p2);
    lemma_same_symmetric(h1, h2);
    if name_covers(p1, h1) {
        lemma_case_one_way(p1, p2, h1, h2);
    }
    if name_covers(p2, h2) {
        lemma_case_one_way(p2, p1, h2, h1);
    }
}

proof fn lemma_same_symmetric(a: Seq<u8>, b: Seq<u8>)
    requires
        same_ignoring_case(a, b),
    ensures
        same_ignoring_case(b, a),
{
    assert forall|i: int| 0 <= i < b.len() implies #[trigger] ascii_lower(b[i]) == ascii_lower(
        a[i],
    ) by {
        assert(ascii_lower(a[i]) == ascii_lower(b[i]));
    }
}

proof fn lemma_same_transitive(a: Seq<u8>, b: Seq<u8>, c: Seq<u8>)
    requires
        same_ignoring_case(a, b),
        same_ignoring_case(b, c),
    ensures
        same_ignoring_case(a, c),
{
    assert forall|i: int| 0 <= i < a.len() implies #[trigger] ascii_lower(a[i]) == ascii_lower(
        c[i],
    ) by {
        assert(ascii_lower(b[i]) == ascii_lower(c[i]));
    }
}

proof fn lemma_same_skip(a: Seq<u8>, b: Seq<u8>, n: int)
    requires
        same_ignoring_case(a, b),
        0 <= n <= a.len(),
    ensures
        same_ignoring_case(a.skip(n), b.skip(n)),
{
    assert forall|i: int| 0 <= i < a.skip(n).len() implies #[trigger] ascii_lower(a.skip(n)[i])
        == ascii_lower(b.skip(n)[i]) by {
        assert(ascii_lower(a[i + n]) == ascii_lower(b[i + n]));
    }
}

proof fn lemma_case_one_way(p1: Seq<u8>, p2: Seq<u8>, h1: Seq<u8>, h2: Seq<u8>)
    requires
        same_ignoring_case(p1, p2),
        same_ignoring_case(h1, h2),
        name_covers(p1, h1),
    ensures
        name_covers(p2, h2),
{
    lemma_same_symmetric(p1, p2);
    lemma_same_symmetric(h1, h2);
    if same_ignoring_case(p1, h1) {
        lemma_same_transitive(p2, p1, h1);
        lemma_same_transitive(p2, h1, h2);
    } else {
        let cut = h1.len() - (p1.len() - 2);
        assert(ascii_lower(p1[0]) == ascii_lower(p2[0]));
        assert(ascii_lower(p1[1]) == ascii_lower(p2[1]));
        assert(ascii_lower(h1[cut - 1]) == ascii_lower(h2[cut - 1]));
        lemma_same_skip(h2, h1, cut);
        lemma_same_skip(p1, p2, 2);
        lemma_same_transitive(h2.skip(cut), h1.skip(cut), p1.skip(2));
        lemma_same_transitive(h2.skip(cut), p1.skip(2), p2.skip(2));
        if h2.take(cut - 1).contains(0x2e) {
            let front = h2.take(cut - 1);
            let i = choose|i: int| 0 <= i < front.len() && front[i] == 0x2e;
            assert(ascii_lower(h1[i]) == ascii_lower(h2[i]));
            assert(h1.take(cut - 1)[i] == 0x2e);
            assert(false);
        }
        assert(wildcard_matches(p2, h2));
    }
}

/// A wildcard covers a host with one more label, whatever the label is.
pub proof fn law_wildcard_covers_one_label(label: Seq<u8>, suffix: Seq<u8>)
    requires
        label.len() > 0,
        !label.contains(0x2e),
    ensures
        name_covers(wildcard(suffix), label + dot() + suffix),
{
    let p = wildcard(suffix);
    let h = label + dot() + suffix;
    let cut = h.len() - (p.len() - 2);
    assert(cut == label.len() + 1);
    assert(h.skip(cut) =~= suffix);
    assert(p.skip(2) =~= suffix);
    assert(h.take(cut - 1) =~= label);
    assert(wildcard_matches(p, h));
}

/// A wildcard does not cover the name that stands behind its star.
pub proof fn law_wildcard_needs_a_label(suffix: Seq<u8>)
    ensures
        !name_covers(wildcard(suffix), suffix),
{
}

/// A wildcard covers one label only, not two.
pub proof fn law_wildcard_is_single_level(first: Seq<u8>, second: Seq<u8>, suffix: Seq<u8>)
    ensures
        !name_covers(wildcard(suffix), first + dot() + second + dot() + suffix),
{
    let p = wildcard(suffix);
    let h = first + dot() + second + dot() + suffix;
    let cut = h.len() - (p.len() - 2);
    assert(cut == first.len() + second.len() + 2);
    if wildcard_matches(p, h) {
        assert(h.take(cut - 1)[first.len() as int] == 0x2e);
        assert(h.take(cut - 1).contains(0x2e));
    }
    if same_ignoring_case(p, h) {
        assert(first.len() == 0 && second.len() == 0);
        assert(ascii_lower(p[0]) == ascii_lower(h[0]));
        assert(h[0] == 0x2e);
    }
}

/// The bytes are the same, or one ASCII letter in upper and in lower case.
pub open spec fn same_letter(a: u8, b: u8) -> bool {
    ||| a == b
    ||| 0x41 <= a <= 0x5a && b == a + 0x20
    ||| 0x41 <= b <= 0x5a && a == b + 0x20
}

/// The texts are as long as each other and the same letter by letter.
pub open spec fn same_text(a: Seq<u8>, b: Seq<u8>) -> bool {
    a.len() == b.len() && forall|i: int| 0 <= i < a.len() ==> same_letter(#[trigger] a[i], b[i])
}

/// The pattern starts with a star and a dot.
pub open spec fn is_wildcard(pattern: Seq<u8>) -> bool {
    pattern.len() >= 2 && pattern[0] == 0x2a && pattern[1] == 0x2e
}

/// The first dot of the host stands at `n`, behind a label that is not empty, and
/// the suffix is all that follows it.
pub open spec fn suffix_follows_label(host: Seq<u8>, n: int, suffix: Seq<u8>) -> bool {
    &&& 0 < n < host.len()
    &&& host[n] == 0x2e
    &&& forall|j: int| 0 <= j < n ==> #[trigger] host[j] != 0x2e
    &&& same_text(host.skip(n + 1), suffix)
}

/// The pattern and the host are the same text; or the pattern is a star, a dot and
/// what follows the first label of the host and its dot.
pub open spec fn is_name_of(pattern: Seq<u8>, host: Seq<u8>) -> bool {
    ||| same_text(pattern, host)
    ||| is_wildcard(pattern) && exists|n: int| #[trigger]
        suffix_follows_label(host, n, pattern.skip(2))
}

proof fn lemma_same_text(a: Seq<u8>, b: Seq<u8>)
    ensures
        same_ignoring_case(a, b) == same_text(a, b),
{
    if same_ignoring_case(a, b) {
        assert forall|i: int| 0 <= i < a.len() implies same_letter(#[trigger] a[i], b[i]) by {
            assert(ascii_lower(a[i]) == ascii_lower(b[i]));
        }
    }
    if same_text(a, b) {
        assert forall|i: int| 0 <= i < a.len() implies #[trigger] ascii_lower(a[i]) == ascii_lower(
            b[i],
        ) by {
            assert(same_letter(a[i], b[i]));
        }
    }
}

/// A name covers a host exactly where it is a name of the host: its own, or the
/// wildcard for its first label.
pub proof fn law_name_covers_exactly(pattern: Seq<u8>, host: Seq<u8>)
    ensures
        name_covers(pattern, host) <==> is_name_of(pattern, host),
{
    lemma_same_text(pattern, host);
    if is_wildcard(pattern) {
        let suffix = pattern.skip(2);
        let cut = host.len() - suffix.len();
        lemma_same_text(host.skip(cut), suffix);
        if wildcard_matches(pattern, host) {
            assert forall|j: int| 0 <= j < cut - 1 implies #[trigger] host[j] != 0x2e by {
                assert(host.take(cut - 1)[j] == host[j]);
            }
            assert(suffix_follows_label(host, cut - 1, suffix));
        }
        if exists|n: int| #[trigger] suffix_follows_label(host, n, suffix) {
            let n = choose|n: int| #[trigger] suffix_follows_label(host, n, suffix);
            assert(cut == n + 1);
            assert(!host.take(cut - 1).contains(0x2e));
            assert(wildcard_matches(pattern, host));
        }
    }
}

/// A name without a wildcard covers a host exactly where the two are equal up to
/// the case of ASCII letters, and so no host of another length.
pub proof fn law_plain_name_covers_only_itself(pattern: Seq<u8>, host: Seq<u8>)
    requires
        !is_wildcard(pattern),
    ensures
        name_covers(pattern, host) <==> same_text(pattern, host),
        pattern.len() != host.len() ==> !name_covers(pattern, host),
{
    law_name_covers_exactly(pattern, host);
}

/// A wildcard covers, beside its own text, exactly the hosts that are one label, a
/// dot and its suffix.
pub proof fn law_wildcard_covers_exactly(suffix: Seq<u8>, host: Seq<u8>)
    ensures
        name_covers(wildcard(suffix), host) <==> same_text(wildcard(suffix), host) || exists|n: int|
            #[trigger] suffix_follows_label(host, n, suffix),
{
    law_name_covers_exactly(wildcard(suffix), host);
    assert(wildcard(suffix).skip(2) =~= suffix);
}

/// The names of a certificate cover a host: one of its alternative names did, or it
/// has none and its common name is a name of the host.
pub open spec fn is_named(names: HostnameView, host: Seq<u8>) -> bool {
    ||| names.san_match == Some(true)
    ||| names.san_match is None && (names.common_name matches Some(cn) && is_name_of(cn, host))
}

/// A certificate covers a host exactly where it names it.
pub proof fn law_certificate_covers_exactly(names: HostnameView, host: Seq<u8>)
    ensures
        names.covers(host) <==> is_named(names, host),
{
    if let Some(cn) = names.common_name {
        law_name_covers_exactly(cn, host);
    }
}

/// Alternative names take precedence: where a certificate has any, its common
/// name does not matter.
pub proof fn law_alternative_names_take_precedence(
    names: HostnameView,
    other: Option<Seq<u8>>,
    host: Seq<u8>,
)
    requires
        names.san_match is Some,
    ensures
        names.covers(host) == (HostnameView { common_name: other, ..names }).covers(host),
        names.covers(host) == (names.san_match == Some(true)),
{
}

/// The common name is the fallback: where a certificate has no alternative names,
/// its common name covers the host or nothing does.
pub proof fn law_common_name_is_the_fallback(common_name: Option<Seq<u8>>, host: Seq<u8>)
    ensures
        (HostnameView { common_name, san_match: None }).covers(host) == (common_name matches Some(cn)
            && name_covers(cn, host)),
{
}

/// A certificate without names covers no host.
pub proof fn law_no_names_cover_nothing(host: Seq<u8>)
    ensures
        !HostnameView::nothing().covers(host),
{
}

} // verus!
