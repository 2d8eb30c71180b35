//! What an accepted certificate and an accepted signature mean.

use vstd::prelude::*;
use crate::asn1::{elements, first_element, header, length_at, TlvView};
use crate::cert_verifier::{
    can_chain, can_digest, can_step, chain_outcome, context_string, signed_message,
    Aes128GcmSha256, Aes256GcmSha384, Step, TlsClock, Transcript, VerifierView,
};
use crate::chain::{chain_pairs, EntryView};
use crate::crypto::{sha256, sha384};
use crate::error::TlsError;
use crate::hostname::HostnameView;
use crate::rsa_backend::{RsaBackend, SoftwareRsa};
use crate::signature::{
    identified_algorithm, is_key, is_signature, is_supported, scheme_algorithm, verdict,
    SignatureScheme,
};
use crate::time::{days_before_month, days_before_year, days_in_month, is_leap_year, DateTime};
use crate::verify::{
    can_handshake_result, can_result, handshake_fits, handshake_result, in_period, leaf_key,
    lemma_handshake_result, lemma_software_result, software_result,
};
use crate::x509::{certificate, signed_bytes};

verus! {

/// The element that holds the signed part of a certificate.
pub open spec fn signed_element(input: Seq<u8>) -> TlvView {
    elements(elements(input)->Some_0[0].value)->Some_0[0]
}

/// What is checked is what is read: the bytes whose signature is verified are the
/// encoding of the very element that the fields are taken from.
#[verifier::rlimit(40)]
pub proof fn law_signed_bytes_are_the_fields(input: Seq<u8>)
    requires
        certificate(input) is Some,
    ensures
        signed_bytes(input) matches Some(bytes) && first_element(bytes) == Some(
            (signed_element(input), bytes.len() as int),
        ),
{
    let (outer, size) = first_element(input)->Some_0;
    let behind = input.skip(size);
    assert(elements(input)->Some_0 =~= seq![outer] + elements(behind)->Some_0);
    assert(elements(input)->Some_0[0] == outer);
    assert(elements(behind)->Some_0.len() == 0);
    if behind.len() > 0 {
        let (t, n) = first_element(behind)->Some_0;
        assert(elements(behind)->Some_0.len() == 1 + elements(behind.skip(n))->Some_0.len());
    }
    let (hdr, len) = header(input)->Some_0;
    let value = input.skip(hdr);
    assert(value =~= input.subrange(hdr, hdr + len));
    let (inner, n) = first_element(value)->Some_0;
    assert(elements(value)->Some_0[0] == inner);
    let (h, l) = header(value)->Some_0;
    let bytes = value.take(h + l);
    assert(length_at(bytes, 1) == length_at(value, 1)) by {
        if value[1] >= 0x81 {
            let count = value[1] - 0x80;
            assert(bytes.subrange(2, 2 + count) =~= value.subrange(2, 2 + count));
        }
    }
    assert(header(bytes) == header(value));
    assert(bytes.subrange(h, h + l) =~= value.subrange(h, h + l));
}

/// A certificate is accepted only if its signature is verified, over its signed
/// bytes, by the key of its issuer, with an algorithm that is supported, and at a
/// time, where one is known, in its period.
pub proof fn law_accepted_certificate_is_signed<B: RsaBackend>(
    issuer: EntryView,
    subject: EntryView,
    now: Option<u64>,
    host: Option<Seq<u8>>,
    names: HostnameView,
)
    requires
        can_result::<B>(issuer, subject, now, host, Ok::<HostnameView, TlsError>(names)),
    ensures
        issuer matches EntryView::X509(ca) && subject matches EntryView::X509(bytes) && ({
            let authority = certificate(ca)->Some_0;
            let cert = certificate(bytes)->Some_0;
            let algorithm = identified_algorithm(cert.signature_algorithm)->Some_0;
            let key = authority.tbs.public_key->Some_0;
            let signature = cert.signature->Some_0;
            &&& certificate(ca) is Some
            &&& certificate(bytes) is Some
            &&& authority.tbs.public_key is Some
            &&& identified_algorithm(cert.signature_algorithm) is Some
            &&& is_supported::<B>(algorithm)
            &&& is_key::<B>(algorithm, key)
            &&& cert.signature is Some
            &&& is_signature(algorithm, signature)
            &&& signed_bytes(bytes) is Some
            &&& verdict::<B>(algorithm, key, signed_bytes(bytes)->Some_0, signature, true)
            &&& in_period(now, cert.tbs.not_before, cert.tbs.not_after)
        }),
{
}

/// A certificate is refused before its period and after it.
pub proof fn law_certificate_out_of_period_is_refused<B: RsaBackend>(
    issuer: EntryView,
    bytes: Seq<u8>,
    now: u64,
    host: Option<Seq<u8>>,
    r: Result<HostnameView, TlsError>,
)
    requires
        certificate(bytes) matches Some(cert) && (now < cert.tbs.not_before.date_time().unix_time()
            || cert.tbs.not_after.date_time().unix_time() < now),
        can_result::<B>(issuer, EntryView::X509(bytes), Some(now), host, r),
    ensures
        r is Err,
{
}

/// With RSA in software, the same pair, time and host give the same result.
pub proof fn law_software_has_one_result(
    issuer: EntryView,
    subject: EntryView,
    now: Option<u64>,
    host: Option<Seq<u8>>,
    r1: Result<HostnameView, TlsError>,
    r2: Result<HostnameView, TlsError>,
)
    requires
        can_result::<SoftwareRsa>(issuer, subject, now, host, r1),
        can_result::<SoftwareRsa>(issuer, subject, now, host, r2),
    ensures
        r1 == r2,
{
    lemma_software_result(issuer, subject, now, host, r1);
    lemma_software_result(issuer, subject, now, host, r2);
}

/// The issuer of an entry: the entry behind it, and the authority for the last.
pub open spec fn issuer_of(authority: EntryView, entries: Seq<EntryView>, i: int) -> EntryView {
    if i == entries.len() - 1 {
        authority
    } else {
        entries[i + 1]
    }
}

/// The entry was accepted, at a time that the clock showed.
pub open spec fn accepted<B: RsaBackend, C: TlsClock>(
    authority: EntryView,
    entries: Seq<EntryView>,
    host: Option<Seq<u8>>,
    i: int,
) -> bool {
    exists|names: HostnameView|
        #[trigger] can_step::<B, C>(
            issuer_of(authority, entries, i),
            entries[i],
            host,
            Ok::<HostnameView, TlsError>(names),
        )
}

/// The first step of an accepted list.
#[verifier::rlimit(40)]
proof fn lemma_first_step<B: RsaBackend, C: TlsClock>(
    authority: EntryView,
    entries: Seq<EntryView>,
    host: Option<Seq<u8>>,
    last: HostnameView,
    names: HostnameView,
) -> (found: HostnameView)
    requires
        entries.len() > 0,
        can_chain::<B, C>(authority, entries, host, last, Ok::<HostnameView, TlsError>(names)),
    ensures
        can_step::<B, C>(
            authority,
            entries.last(),
            host,
            Ok::<HostnameView, TlsError>(found),
        ),
        accepted::<B, C>(authority, entries, host, entries.len() - 1),
        can_chain::<B, C>(
            entries.last(),
            entries.drop_last(),
            host,
            found,
            Ok::<HostnameView, TlsError>(names),
        ),
{
    let step = choose|step: Result<HostnameView, TlsError>|
        #[trigger] can_step::<B, C>(authority, entries.last(), host, step) && match step {
            Err(e) => Ok::<HostnameView, TlsError>(names) == Err::<HostnameView, TlsError>(e),
            Ok(found) => can_chain::<B, C>(
                entries.last(),
                entries.drop_last(),
                host,
                found,
                Ok::<HostnameView, TlsError>(names),
            ),
        };
    let found = step->Ok_0;
    let i = entries.len() - 1;
    assert(can_step::<B, C>(
        issuer_of(authority, entries, i),
        entries[i],
        host,
        Ok::<HostnameView, TlsError>(found),
    ));
    found
}

/// A list is accepted only if each of its entries is accepted, by the entry
/// behind it or, for the last, by the authority; and what is found out about the
/// host comes from the first entry.
#[verifier::rlimit(40)]
pub proof fn law_accepted_chain_leads_to_authority<B: RsaBackend, C: TlsClock>(
    authority: EntryView,
    entries: Seq<EntryView>,
    host: Option<Seq<u8>>,
    last: HostnameView,
    names: HostnameView,
)
    requires
        can_chain::<B, C>(authority, entries, host, last, Ok::<HostnameView, TlsError>(names)),
    ensures
        forall|i: int|
            0 <= i < entries.len() ==> #[trigger] accepted::<B, C>(authority, entries, host, i),
        entries.len() == 0 ==> names == last,
        entries.len() > 0 ==> can_step::<B, C>(
            issuer_of(authority, entries, 0),
            entries[0],
            host,
            Ok::<HostnameView, TlsError>(names),
        ),
    decreases entries.len(),
{
    if entries.len() > 0 {
        let subject = entries.last();
        let rest = entries.drop_last();
        let found = lemma_first_step::<B, C>(authority, entries, host, last, names);
        law_accepted_chain_leads_to_authority::<B, C>(subject, rest, host, found, names);
        assert forall|i: int| 0 <= i < entries.len() implies #[trigger] accepted::<B, C>(
            authority,
            entries,
            host,
            i,
        ) by {
            if i < entries.len() - 1 {
                assert(accepted::<B, C>(subject, rest, host, i));
                assert(issuer_of(subject, rest, i) == issuer_of(authority, entries, i));
                assert(rest[i] == entries[i]);
            }
        }
        if rest.len() > 0 {
            assert(issuer_of(subject, rest, 0) == issuer_of(authority, entries, 0));
            assert(rest[0] == entries[0]);
        }
    }
}

/// A server is accepted only if its list leads to the authority, and, where a
/// host is asked for, only if there is a first entry and what it says covers the
/// host.
pub proof fn law_accepted_server_is_the_host<B: RsaBackend, C: TlsClock>(
    authority: EntryView,
    entries: Seq<EntryView>,
    host: Option<Seq<u8>>,
    chain: Result<HostnameView, TlsError>,
    room: bool,
)
    requires
        can_chain::<B, C>(authority, entries, host, HostnameView::nothing(), chain),
        chain_outcome(chain, host, room) is Ok,
    ensures
        room,
        forall|i: int|
            0 <= i < entries.len() ==> #[trigger] accepted::<B, C>(authority, entries, host, i),
        host matches Some(h) ==> entries.len() > 0 && (exists|names: HostnameView|
            #[trigger] can_step::<B, C>(
                issuer_of(authority, entries, 0),
                entries[0],
                host,
                Ok::<HostnameView, TlsError>(names),
            ) && names.covers(h)),
{
    let names = chain->Ok_0;
    law_accepted_chain_leads_to_authority::<B, C>(
        authority,
        entries,
        host,
        HostnameView::nothing(),
        names,
    );
}

/// What the verification of a list ends with where RSA is verified in software
/// and the clock stands still.
pub open spec fn chain_at(
    issuer: EntryView,
    entries: Seq<EntryView>,
    now: Option<u64>,
    host: Option<Seq<u8>>,
    last: HostnameView,
) -> Result<HostnameView, TlsError>
    decreases entries.len(),
{
    if entries.len() == 0 {
        Ok(last)
    } else {
        match software_result(issuer, entries.last(), now, host) {
            Err(e) => Err(e),
            Ok(names) => chain_at(entries.last(), entries.drop_last(), now, host, names),
        }
    }
}

/// Only the clock is left to chance: with RSA in software, and a clock that shows
/// one time only, the verification of a list has one result.
#[verifier::rlimit(40)]
pub proof fn law_only_the_clock_varies<C: TlsClock>(
    authority: EntryView,
    entries: Seq<EntryView>,
    now: Option<u64>,
    host: Option<Seq<u8>>,
    last: HostnameView,
    r: Result<HostnameView, TlsError>,
)
    requires
        forall|t: Option<u64>| call_ensures(C::now, (), t) ==> t == now,
        can_chain::<SoftwareRsa, C>(authority, entries, host, last, r),
    ensures
        r == chain_at(authority, entries, now, host, last),
    decreases entries.len(),
{
    if entries.len() > 0 {
        let subject = entries.last();
        let rest = entries.drop_last();
        let step = choose|step: Result<HostnameView, TlsError>|
            #[trigger] can_step::<SoftwareRsa, C>(authority, subject, host, step) && match step {
                Err(e) => r == Err::<HostnameView, TlsError>(e),
                Ok(found) => can_chain::<SoftwareRsa, C>(subject, rest, host, found, r),
            };
        reveal(can_step);
        lemma_software_result(authority, subject, now, host, step);
        if let Ok(found) = step {
            law_only_the_clock_varies::<C>(subject, rest, now, host, found, r);
        }
    }
}

/// A handshake is accepted only if its signature is verified, over the message,
/// by the key of the first certificate, with the algorithm of its scheme.
pub proof fn law_accepted_handshake_is_signed<B: RsaBackend>(
    message: Seq<u8>,
    entries: Seq<EntryView>,
    scheme: SignatureScheme,
    signature: Seq<u8>,
)
    requires
        can_handshake_result::<B>(message, entries, scheme, signature, Ok::<(), TlsError>(())),
    ensures
        leaf_key(entries) matches Ok(key) && scheme_algorithm(scheme) matches Some(algorithm)
            && is_supported::<B>(algorithm) && is_key::<B>(algorithm, key) && is_signature(
            algorithm,
            signature,
        ) && verdict::<B>(algorithm, key, message, signature, true),
{
}

/// Only the server's own certificate counts in the handshake: lists with the same
/// first entry give the same results, whatever else is in them, and are refused
/// for the same keys.
pub proof fn law_only_the_first_entry_counts<B: RsaBackend>(
    message: Seq<u8>,
    entries: Seq<EntryView>,
    others: Seq<EntryView>,
    scheme: SignatureScheme,
    signature: Seq<u8>,
    r: Result<(), TlsError>,
)
    requires
        entries.len() > 0,
        others.len() > 0,
        entries[0] == others[0],
    ensures
        handshake_result(message, entries, scheme, signature) == handshake_result(
            message,
            others,
            scheme,
            signature,
        ),
        can_handshake_result::<B>(message, entries, scheme, signature, r)
            == can_handshake_result::<B>(message, others, scheme, signature, r),
        handshake_fits::<B>(entries, scheme) == handshake_fits::<B>(others, scheme),
{
    assert(leaf_key(entries) == leaf_key(others));
}

/// With RSA in software, the same message, list and signature give the same
/// result.
pub proof fn law_software_has_one_handshake_result(
    message: Seq<u8>,
    entries: Seq<EntryView>,
    scheme: SignatureScheme,
    signature: Seq<u8>,
    r1: Result<(), TlsError>,
    r2: Result<(), TlsError>,
)
    requires
        can_handshake_result::<SoftwareRsa>(message, entries, scheme, signature, r1),
        can_handshake_result::<SoftwareRsa>(message, entries, scheme, signature, r2),
    ensures
        r1 == r2,
{
    lemma_handshake_result(message, entries, scheme, signature, r1);
    lemma_handshake_result(message, entries, scheme, signature, r2);
}

/// The suites of TLS 1.3 have one digest for a transcript, and it fits in the
/// signed message.
pub proof fn law_suites_have_one_digest(transcript: &Transcript, digest: Seq<u8>)
    ensures
        can_digest::<Aes128GcmSha256>(transcript, digest) ==> digest == sha256(transcript@)
            && digest.len() == 32,
        can_digest::<Aes256GcmSha384>(transcript, digest) ==> digest == sha384(transcript@)
            && digest.len() == 48,
{
}

/// The signed message stands for one digest: messages of different transcripts
/// are different, as long as their digests are.
pub proof fn law_signed_message_fixes_digest(d1: Seq<u8>, d2: Seq<u8>)
    requires
        signed_message(d1) == signed_message(d2),
    ensures
        d1 == d2,
{
    let front = Seq::new(64, |i: int| 0x20u8) + context_string();
    assert(signed_message(d1).skip(front.len() as int) =~= d1);
    assert(signed_message(d2).skip(front.len() as int) =~= d2);
}

/// A chain goes from the authority down to the first entry: each entry is the
/// subject of one pair, the last entry first.
pub proof fn law_chain_goes_down(authority: EntryView, entries: Seq<EntryView>)
    ensures
        chain_pairs(authority, entries).len() == entries.len(),
        forall|i: int|
            0 <= i < entries.len() ==> #[trigger] chain_pairs(authority, entries)[i] == (
                issuer_of(authority, entries, entries.len() - 1 - i),
                entries[entries.len() - 1 - i],
            ),
    decreases entries.len(),
{
    if entries.len() > 0 {
        let subject = entries.last();
        let rest = entries.drop_last();
        law_chain_goes_down(subject, rest);
        let pairs = chain_pairs(authority, entries);
        let more = chain_pairs(subject, rest);
        assert forall|i: int| 0 <= i < entries.len() implies #[trigger] pairs[i] == (
            issuer_of(authority, entries, entries.len() - 1 - i),
            entries[entries.len() - 1 - i],
        ) by {
            if i > 0 {
                assert(pairs[i] == more[i - 1]);
            }
        }
    }
}

/// The state of a verifier after the changes, in their order.
pub open spec fn state_after(steps: Seq<Step>) -> VerifierView
    decreases steps.len(),
{
    if steps.len() == 0 {
        VerifierView::fresh()
    } else {
        state_after(steps.drop_last()).after(steps.last())
    }
}

/// Certificates were kept, and the digest that was kept with them was not used
/// since.
pub open spec fn kept_since_use(steps: Seq<Step>) -> bool {
    exists|i: int|
        0 <= i < steps.len() && (#[trigger] steps[i]) is Keep && (forall|j: int|
            i < j < steps.len() ==> !((#[trigger] steps[j]) is Use))
}

/// A kept digest has its certificates: in every state that a new verifier can
/// come to, there is a digest to verify a signature with exactly where
/// certificates were accepted since the start and since the last signature, and
/// where there is a digest there are certificates.
pub proof fn law_kept_digest_has_certificates(steps: Seq<Step>)
    ensures
        state_after(steps).digest is Some <==> kept_since_use(steps),
        state_after(steps).digest is Some ==> state_after(steps).certificate is Some,
    decreases steps.len(),
{
    if steps.len() > 0 {
        let before = steps.drop_last();
        let n = steps.len() - 1;
        law_kept_digest_has_certificates(before);
        match steps.last() {
            Step::Keep(_, _) => {
                assert(steps[n] is Keep);
            },
            Step::Use => {
                if kept_since_use(steps) {
                    let i = choose|i: int|
                        0 <= i < steps.len() && (#[trigger] steps[i]) is Keep && (forall|j: int|
                            i < j < steps.len() ==> !((#[trigger] steps[j]) is Use));
                    assert(steps[n] is Use);
                }
            },
            Step::Host(_) => {
                if kept_since_use(before) {
                    let i = choose|i: int|
                        0 <= i < before.len() && (#[trigger] before[i]) is Keep && (forall|j: int|
                            i < j < before.len() ==> !((#[trigger] before[j]) is Use));
                    assert(steps[i] is Keep);
                    assert forall|j: int| i < j < steps.len() implies !((#[trigger] steps[j]) is Use) by {
                        if j < n {
                            assert(before[j] == steps[j]);
                        }
                    }
                }
                if kept_since_use(steps) {
                    let i = choose|i: int|
                        0 <= i < steps.len() && (#[trigger] steps[i]) is Keep && (forall|j: int|
                            i < j < steps.len() ==> !((#[trigger] steps[j]) is Use));
                    assert(before[i] is Keep);
                    assert forall|j: int| i < j < before.len() implies !((#[trigger] before[j]) is Use) by {
                        assert(steps[j] == before[j]);
                    }
                }
            },
        }
    }
}

/// The first date comes before the second.
pub open spec fn is_before(a: DateTime, b: DateTime) -> bool {
    ||| a.year < b.year
    ||| a.year == b.year && a.month < b.month
    ||| a.year == b.year && a.month == b.month && a.day < b.day
    ||| a.year == b.year && a.month == b.month && a.day == b.day && (a.hour * 3600 + a.minutes * 60
        + a.seconds) < (b.hour * 3600 + b.minutes * 60 + b.seconds)
}

proof fn lemma_months(year: int, m1: int, m2: int)
    requires
        1 <= m1 <= m2,
    ensures
        m1 < m2 ==> days_before_month(year, m1) + days_in_month(year, m1) <= days_before_month(
            year,
            m2,
        ),
        days_before_month(year, m1) <= days_before_month(year, m2),
    decreases m2 - m1,
{
    if m1 < m2 {
        lemma_months(year, m1, m2 - 1);
    }
}

proof fn lemma_year_length(year: int)
    ensures
        days_before_month(year, 13) == if is_leap_year(year) {
            366int
        } else {
            365int
        },
{
    reveal_with_fuel(days_before_month, 14);
}

proof fn lemma_years(y1: int, y2: int)
    requires
        1970 <= y1 < y2,
    ensures
        days_before_year(y1) + days_before_month(y1, 13) <= days_before_year(y2),
    decreases y2 - y1,
{
    lemma_year_length(y1);
    if y1 < y2 - 1 {
        lemma_years(y1, y2 - 1);
    }
}

proof fn lemma_days(a: DateTime)
    requires
        a.valid(),
    ensures
        days_before_month(a.year as int, a.month as int) + a.day <= days_before_month(
            a.year as int,
            13,
        ),
        0 <= days_before_month(a.year as int, a.month as int),
{
    lemma_months(a.year as int, a.month as int, 13);
    lemma_months(a.year as int, 1, a.month as int);
}

/// Seconds count time: the earlier of two dates has the smaller number.
pub proof fn law_earlier_is_smaller(a: DateTime, b: DateTime)
    requires
        a.valid(),
        b.valid(),
        is_before(a, b),
    ensures
        a.unix_time() < b.unix_time(),
{
    lemma_days(a);
    lemma_days(b);
    let day_a = days_before_year(a.year as int) + days_before_month(a.year as int, a.month as int)
        + (a.day - 1);
    let day_b = days_before_year(b.year as int) + days_before_month(b.year as int, b.month as int)
        + (b.day - 1);
    if a.year < b.year {
        lemma_years(a.year as int, b.year as int);
        assert(day_a < day_b);
    } else if a.month < b.month {
        lemma_months(a.year as int, a.month as int, b.month as int);
        assert(day_a < day_b);
    }
}

/// The last day of a month, by the Gregorian calendar.
pub open spec fn last_day(year: int, month: int) -> int {
    if month == 2 {
        if year % 400 == 0 || (year % 4 == 0 && year % 100 != 0) {
            29
        } else {
            28
        }
    } else {
        seq![31int, 0, 31, 30, 31, 30, 31, 31, 30, 31, 30, 31][month - 1]
    }
}

/// Dates exist exactly where the calendar has them, from 1970 to 9999.
pub proof fn law_dates_exist_exactly(dt: DateTime)
    ensures
        dt.valid() <==> {
            &&& 1970 <= dt.year <= 9999
            &&& 1 <= dt.month <= 12
            &&& 1 <= dt.day <= last_day(dt.year as int, dt.month as int)
            &&& 0 <= dt.hour < 24
            &&& 0 <= dt.minutes < 60
            &&& 0 <= dt.seconds < 60
        },
{
    if 1 <= dt.month <= 12 {
        let days = seq![31int, 0, 31, 30, 31, 30, 31, 31, 30, 31, 30, 31];
        assert(days[0] == 31 && days[2] == 31 && days[3] == 30 && days[4] == 31 && days[5] == 30);
        assert(days[6] == 31 && days[7] == 31 && days[8] == 30 && days[9] == 31 && days[10] == 30);
        assert(days[11] == 31);
    }
}

/// The second day is the day after the first.
pub open spec fn is_next_day(a: DateTime, b: DateTime) -> bool {
    ||| b.year == a.year && b.month == a.month && b.day == a.day + 1
    ||| b.year == a.year && b.month == a.month + 1 && b.day == 1 && a.day == last_day(
        a.year as int,
        a.month as int,
    )
    ||| b.year == a.year + 1 && b.month == 1 && b.day == 1 && a.month == 12 && a.day == 31
}

/// The number of the second in its day.
pub open spec fn second_of_day(a: DateTime) -> int {
    (a.hour * 60 + a.minutes) * 60 + a.seconds
}

/// The second date is one second after the first.
pub open spec fn is_next_second(a: DateTime, b: DateTime) -> bool {
    ||| a.year == b.year && a.month == b.month && a.day == b.day && second_of_day(b)
        == second_of_day(a) + 1
    ||| is_next_day(a, b) && second_of_day(a) == 24 * 60 * 60 - 1 && second_of_day(b) == 0
}

/// Seconds are counted one by one from the start of 1970.
pub proof fn law_seconds_are_counted(a: DateTime, b: DateTime)
    requires
        a.valid(),
        b.valid(),
    ensures
        a.year == 1970 && a.month == 1 && a.day == 1 && second_of_day(a) == 0 ==> a.unix_time() == 0,
        is_next_second(a, b) ==> b.unix_time() == a.unix_time() + 1,
{
    law_dates_exist_exactly(a);
    let y = a.year as int;
    let m = a.month as int;
    let days = seq![31int, 0, 31, 30, 31, 30, 31, 31, 30, 31, 30, 31];
    assert(days[0] == 31 && days[2] == 31 && days[3] == 30 && days[4] == 31 && days[5] == 30);
    assert(days[6] == 31 && days[7] == 31 && days[8] == 30 && days[9] == 31 && days[10] == 30);
    assert(days[11] == 31);
    assert(last_day(y, m) == days_in_month(y, m));
    assert(days_before_month(y, m + 1) == days_before_month(y, m) + days_in_month(y, m));
    if is_next_day(a, b) && b.year == a.year + 1 {
        lemma_year_length(y);
        assert(days_before_month(y, 13) == days_before_month(y, 12) + 31);
        assert(days_before_month(y + 1, 1) == 0);
    }
}

} // verus!
