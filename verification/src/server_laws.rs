//! Exactly when a server is accepted, and what a verifier keeps of it.

use vstd::prelude::*;
use crate::acceptance_laws::{first_key, law_handshake_fits_exactly};
use crate::cert_verifier::{
    can_chain, can_digest, can_step, can_try_chain, can_try_step, can_verifier_result,
    chain_fits, chain_outcome, context_string, entries_size, signed_message, verifier_result, Step,
    TlsCipherSuite, TlsClock, VerifierView,
};
use crate::chain::EntryView;
use crate::error::TlsError;
use crate::hostname::HostnameView;
use crate::laws::{is_named, law_certificate_covers_exactly};
use crate::rsa_backend::{HashAlgorithm, RsaBackend, SoftwareRsa};
use crate::signature::SignatureScheme;
use crate::trust_laws::{accepted, issuer_of};
use crate::verify::{can_handshake_result, can_result, lemma_handshake_result, pair_fits};

verus! {

/// The time of a check comes from the clock: a pair is verified at a time that the
/// clock showed.
pub proof fn law_step_is_taken_at_clock_time<B: RsaBackend, C: TlsClock>(
    issuer: EntryView,
    subject: EntryView,
    host: Option<Seq<u8>>,
    step: Result<HostnameView, TlsError>,
)
    ensures
        can_step::<B, C>(issuer, subject, host, step) <==> exists|now: Option<u64>|
            call_ensures(C::now, (), now) && #[trigger] can_result::<B>(
                issuer,
                subject,
                now,
                host,
                step,
            ),
{
    reveal(can_step);
}

/// An attempt on a pair gives up, at a time that the clock showed, exactly where the
/// key does not fit, and is a verification otherwise.
pub proof fn law_attempt_is_made_at_clock_time<B: RsaBackend, C: TlsClock>(
    issuer: EntryView,
    subject: EntryView,
    host: Option<Seq<u8>>,
    step: Option<Result<HostnameView, TlsError>>,
)
    ensures
        can_try_step::<B, C>(issuer, subject, host, step) <==> exists|now: Option<u64>|
            call_ensures(C::now, (), now) && match step {
                None => !(#[trigger] pair_fits(issuer, subject, now, host)),
                Some(r) => pair_fits(issuer, subject, now, host) && can_result::<B>(
                    issuer,
                    subject,
                    now,
                    host,
                    r,
                ),
            },
{
    reveal(can_try_step);
}

/// The entry at `i` can be refused with the error, and all entries behind it accepted.
pub open spec fn refused_at<B: RsaBackend, C: TlsClock>(
    authority: EntryView,
    entries: Seq<EntryView>,
    host: Option<Seq<u8>>,
    i: int,
    e: TlsError,
) -> bool {
    &&& 0 <= i < entries.len()
    &&& can_step::<B, C>(
        issuer_of(authority, entries, i),
        entries[i],
        host,
        Err::<HostnameView, TlsError>(e),
    )
    &&& forall|j: int| i < j < entries.len() ==> #[trigger] accepted::<B, C>(
        authority,
        entries,
        host,
        j,
    )
}

/// The entries of a list without its last one are issued as they were.
proof fn lemma_issuers(authority: EntryView, entries: Seq<EntryView>)
    requires
        entries.len() > 0,
    ensures
        forall|i: int| #![trigger issuer_of(authority, entries, i)]
            #![trigger issuer_of(entries.last(), entries.drop_last(), i)]
            0 <= i < entries.len() - 1 ==> issuer_of(authority, entries, i) == issuer_of(
                entries.last(),
                entries.drop_last(),
                i,
            ) && entries.drop_last()[i] == entries[i],
        issuer_of(authority, entries, entries.len() - 1) == authority,
{
}

/// The verification of a list, of whatever length, has these results and no others:
/// what the first entry says about the host, where every entry is accepted by the
/// one behind it and the last by the authority; and the error of an entry that is
/// refused, where all entries behind it are accepted.
#[verifier::rlimit(60)]
pub proof fn law_chain_result_exactly<B: RsaBackend, C: TlsClock>(
    authority: EntryView,
    entries: Seq<EntryView>,
    host: Option<Seq<u8>>,
    last: HostnameView,
    r: Result<HostnameView, TlsError>,
)
    ensures
        can_chain::<B, C>(authority, entries, host, last, r) <==> match r {
            Ok(names) => {
                &&& forall|i: int|
                    0 <= i < entries.len() ==> #[trigger] accepted::<B, C>(
                        authority,
                        entries,
                        host,
                        i,
                    )
                &&& entries.len() == 0 ==> names == last
                &&& entries.len() > 0 ==> can_step::<B, C>(
                    issuer_of(authority, entries, 0),
                    entries[0],
                    host,
                    r,
                )
            },
            Err(e) => exists|i: int| #[trigger] refused_at::<B, C>(authority, entries, host, i, e),
        },
    decreases entries.len(),
{
    if entries.len() > 0 {
        let n = entries.len() - 1;
        let subject = entries.last();
        let rest = entries.drop_last();
        lemma_issuers(authority, entries);
        assert(entries[n] == subject);
        assert forall|i: int| 0 <= i < n implies #[trigger] accepted::<B, C>(
            authority,
            entries,
            host,
            i,
        ) == accepted::<B, C>(subject, rest, host, i) by {
            assert(issuer_of(authority, entries, i) == issuer_of(subject, rest, i));
        }
        assert forall|names: HostnameView| #[trigger]
            can_step::<B, C>(authority, subject, host, Ok::<HostnameView, TlsError>(names)) implies (
        can_chain::<B, C>(subject, rest, host, names, r) <==> rest_result::<B, C>(
            authority,
            entries,
            host,
            names,
            r,
        )) by {
            law_chain_result_exactly::<B, C>(subject, rest, host, names, r);
            lemma_rest_result::<B, C>(authority, entries, host, names, r);
        }
        lemma_one_step::<B, C>(authority, entries, host, last, r);
    }
}

/// The result can come of a list whose last entry was accepted with `names`.
spec fn rest_result<B: RsaBackend, C: TlsClock>(
    authority: EntryView,
    entries: Seq<EntryView>,
    host: Option<Seq<u8>>,
    names: HostnameView,
    r: Result<HostnameView, TlsError>,
) -> bool {
    let n = entries.len() - 1;
    match r {
        Ok(found) => {
            &&& forall|i: int|
                0 <= i < n ==> #[trigger] accepted::<B, C>(authority, entries, host, i)
            &&& n == 0 ==> found == names
            &&& n > 0 ==> can_step::<B, C>(
                issuer_of(authority, entries, 0),
                entries[0],
                host,
                r,
            )
        },
        Err(e) => exists|i: int|
            i < n && #[trigger] refused_at::<B, C>(authority, entries, host, i, e),
    }
}

#[verifier::rlimit(60)]
proof fn lemma_rest_result<B: RsaBackend, C: TlsClock>(
    authority: EntryView,
    entries: Seq<EntryView>,
    host: Option<Seq<u8>>,
    names: HostnameView,
    r: Result<HostnameView, TlsError>,
)
    requires
        entries.len() > 0,
        can_step::<B, C>(
            authority,
            entries.last(),
            host,
            Ok::<HostnameView, TlsError>(names),
        ),
    ensures
        rest_result::<B, C>(authority, entries, host, names, r) <==> match r {
            Ok(found) => {
                &&& forall|i: int|
                    0 <= i < entries.len() - 1 ==> #[trigger] accepted::<B, C>(
                        entries.last(),
                        entries.drop_last(),
                        host,
                        i,
                    )
                &&& entries.len() == 1 ==> found == names
                &&& entries.len() > 1 ==> can_step::<B, C>(
                    issuer_of(entries.last(), entries.drop_last(), 0),
                    entries.drop_last()[0],
                    host,
                    r,
                )
            },
            Err(e) => exists|i: int| #[trigger]
                refused_at::<B, C>(entries.last(), entries.drop_last(), host, i, e),
        },
{
    let n = entries.len() - 1;
    let subject = entries.last();
    let rest = entries.drop_last();
    lemma_issuers(authority, entries);
    assert forall|i: int|
        #![trigger accepted::<B, C>(authority, entries, host, i)]
        #![trigger accepted::<B, C>(subject, rest, host, i)]
        0 <= i < n implies accepted::<B, C>(authority, entries, host, i) == accepted::<B, C>(
        subject,
        rest,
        host,
        i,
    ) by {
        assert(issuer_of(authority, entries, i) == issuer_of(subject, rest, i));
    }
    match r {
        Ok(found) => {
            if n > 0 {
                assert(issuer_of(authority, entries, 0) == issuer_of(subject, rest, 0));
            }
        },
        Err(e) => {
            assert(accepted::<B, C>(authority, entries, host, n)) by {
                assert(can_step::<B, C>(
                    issuer_of(authority, entries, n),
                    entries[n],
                    host,
                    Ok::<HostnameView, TlsError>(names),
                ));
            }
            assert forall|i: int| i < n implies #[trigger] refused_at::<B, C>(
                authority,
                entries,
                host,
                i,
                e,
            ) == refused_at::<B, C>(subject, rest, host, i, e) by {
                if 0 <= i {
                    assert(issuer_of(authority, entries, i) == issuer_of(subject, rest, i));
                    if refused_at::<B, C>(authority, entries, host, i, e) {
                        assert forall|j: int| i < j < rest.len() implies #[trigger] accepted::<B, C>(
                            subject,
                            rest,
                            host,
                            j,
                        ) by {
                            assert(accepted::<B, C>(authority, entries, host, j));
                        }
                    }
                    if refused_at::<B, C>(subject, rest, host, i, e) {
                        assert forall|j: int| i < j < entries.len() implies #[trigger] accepted::<
                            B,
                            C,
                        >(authority, entries, host, j) by {
                            if j < n {
                                assert(accepted::<B, C>(subject, rest, host, j));
                            }
                        }
                    }
                }
            }
            if exists|i: int| #[trigger] refused_at::<B, C>(subject, rest, host, i, e) {
                let i = choose|i: int| #[trigger] refused_at::<B, C>(subject, rest, host, i, e);
                assert(refused_at::<B, C>(authority, entries, host, i, e));
            }
        },
    }
}

/// One step of the verification of a list.
#[verifier::rlimit(60)]
proof fn lemma_one_step<B: RsaBackend, C: TlsClock>(
    authority: EntryView,
    entries: Seq<EntryView>,
    host: Option<Seq<u8>>,
    last: HostnameView,
    r: Result<HostnameView, TlsError>,
)
    requires
        entries.len() > 0,
        forall|names: HostnameView| #[trigger]
            can_step::<B, C>(
                authority,
                entries.last(),
                host,
                Ok::<HostnameView, TlsError>(names),
            ) ==> (can_chain::<B, C>(entries.last(), entries.drop_last(), host, names, r)
                <==> rest_result::<B, C>(authority, entries, host, names, r)),
    ensures
        can_chain::<B, C>(authority, entries, host, last, r) <==> match r {
            Ok(names) => {
                &&& forall|i: int|
                    0 <= i < entries.len() ==> #[trigger] accepted::<B, C>(
                        authority,
                        entries,
                        host,
                        i,
                    )
                &&& can_step::<B, C>(issuer_of(authority, entries, 0), entries[0], host, r)
            },
            Err(e) => exists|i: int| #[trigger] refused_at::<B, C>(authority, entries, host, i, e),
        },
{
    let n = entries.len() - 1;
    let subject = entries.last();
    let rest = entries.drop_last();
    lemma_issuers(authority, entries);
    assert(entries[n] == subject);
    if can_chain::<B, C>(authority, entries, host, last, r) {
        let step = choose|step: Result<HostnameView, TlsError>|
            #[trigger] can_step::<B, C>(authority, subject, host, step) && match step {
                Err(e) => r == Err::<HostnameView, TlsError>(e),
                Ok(names) => can_chain::<B, C>(subject, rest, host, names, r),
            };
        match step {
            Err(e) => {
                assert(refused_at::<B, C>(authority, entries, host, n, e));
            },
            Ok(names) => {
                assert(can_step::<B, C>(
                    issuer_of(authority, entries, n),
                    entries[n],
                    host,
                    Ok::<HostnameView, TlsError>(names),
                ));
                assert(accepted::<B, C>(authority, entries, host, n));
                assert(rest_result::<B, C>(authority, entries, host, names, r));
            },
        }
    }
    match r {
        Ok(names) => {
            if (forall|i: int|
                0 <= i < entries.len() ==> #[trigger] accepted::<B, C>(authority, entries, host, i))
                && can_step::<B, C>(issuer_of(authority, entries, 0), entries[0], host, r) {
                assert(accepted::<B, C>(authority, entries, host, n));
                let found = if n == 0 {
                    names
                } else {
                    choose|found: HostnameView| #[trigger]
                        can_step::<B, C>(
                            issuer_of(authority, entries, n),
                            entries[n],
                            host,
                            Ok::<HostnameView, TlsError>(found),
                        )
                };
                let step = Ok::<HostnameView, TlsError>(found);
                assert(can_step::<B, C>(authority, subject, host, step));
                assert(rest_result::<B, C>(authority, entries, host, found, r));
                assert(can_chain::<B, C>(subject, rest, host, found, r));
            }
        },
        Err(e) => {
            if exists|i: int| #[trigger] refused_at::<B, C>(authority, entries, host, i, e) {
                let i = choose|i: int| #[trigger]
                    refused_at::<B, C>(authority, entries, host, i, e);
                if i == n {
                    assert(can_step::<B, C>(authority, subject, host, r));
                } else {
                    assert(accepted::<B, C>(authority, entries, host, n));
                    let found = choose|found: HostnameView| #[trigger]
                        can_step::<B, C>(
                            issuer_of(authority, entries, n),
                            entries[n],
                            host,
                            Ok::<HostnameView, TlsError>(found),
                        );
                    let step = Ok::<HostnameView, TlsError>(found);
                    assert(can_step::<B, C>(authority, subject, host, step));
                    assert(rest_result::<B, C>(authority, entries, host, found, r));
                    assert(can_chain::<B, C>(subject, rest, host, found, r));
                }
            }
        },
    }
}

/// An attempt on the entry can end with its being accepted.
pub open spec fn attempt_accepted<B: RsaBackend, C: TlsClock>(
    authority: EntryView,
    entries: Seq<EntryView>,
    host: Option<Seq<u8>>,
    i: int,
) -> bool {
    exists|names: HostnameView|
        #[trigger] can_try_step::<B, C>(
            issuer_of(authority, entries, i),
            entries[i],
            host,
            Some(Ok::<HostnameView, TlsError>(names)),
        )
}

/// An attempt can end with `r` at the entry at `i`, with all entries behind it
/// accepted.
pub open spec fn attempt_ends_at<B: RsaBackend, C: TlsClock>(
    authority: EntryView,
    entries: Seq<EntryView>,
    host: Option<Seq<u8>>,
    i: int,
    r: Option<Result<HostnameView, TlsError>>,
) -> bool {
    &&& 0 <= i < entries.len()
    &&& can_try_step::<B, C>(issuer_of(authority, entries, i), entries[i], host, r)
    &&& forall|j: int| i < j < entries.len() ==> #[trigger] attempt_accepted::<B, C>(
        authority,
        entries,
        host,
        j,
    )
}

/// The attempt on a list, with `names` found out before, can end with `r`: with what
/// the first entry says, where every entry is accepted; or as the attempt on an
/// entry ends that is not accepted, where all entries behind it are.
pub open spec fn is_attempt_result<B: RsaBackend, C: TlsClock>(
    authority: EntryView,
    entries: Seq<EntryView>,
    host: Option<Seq<u8>>,
    names: HostnameView,
    r: Option<Result<HostnameView, TlsError>>,
) -> bool {
    if r matches Some(Ok(_)) {
        &&& forall|i: int|
            0 <= i < entries.len() ==> #[trigger] attempt_accepted::<B, C>(
                authority,
                entries,
                host,
                i,
            )
        &&& entries.len() == 0 ==> r == Some(Ok::<HostnameView, TlsError>(names))
        &&& entries.len() > 0 ==> can_try_step::<B, C>(
            issuer_of(authority, entries, 0),
            entries[0],
            host,
            r,
        )
    } else {
        exists|i: int| #[trigger] attempt_ends_at::<B, C>(authority, entries, host, i, r)
    }
}

/// The attempt on a list, of whatever length, has these results and no others.
#[verifier::rlimit(60)]
pub proof fn law_attempt_result_exactly<B: RsaBackend, C: TlsClock>(
    authority: EntryView,
    entries: Seq<EntryView>,
    host: Option<Seq<u8>>,
    last: HostnameView,
    r: Option<Result<HostnameView, TlsError>>,
)
    ensures
        can_try_chain::<B, C>(authority, entries, host, last, r) <==> is_attempt_result::<B, C>(
            authority,
            entries,
            host,
            last,
            r,
        ),
    decreases entries.len(),
{
    if entries.len() > 0 {
        let n = entries.len() - 1;
        let subject = entries.last();
        let rest = entries.drop_last();
        assert(issuer_of(authority, entries, n) == authority && entries[n] == subject);
        if can_try_chain::<B, C>(authority, entries, host, last, r) {
            let step = choose|step: Option<Result<HostnameView, TlsError>>|
                #[trigger] can_try_step::<B, C>(authority, subject, host, step) && match step {
                    Some(Ok(names)) => can_try_chain::<B, C>(subject, rest, host, names, r),
                    _ => r == step,
                };
            if let Some(Ok(names)) = step {
                law_attempt_result_exactly::<B, C>(subject, rest, host, names, r);
                lemma_attempt_goes_on::<B, C>(authority, entries, host, last, names, r);
            } else {
                assert(attempt_ends_at::<B, C>(authority, entries, host, n, r));
            }
        }
        if is_attempt_result::<B, C>(authority, entries, host, last, r) {
            if attempt_ends_at::<B, C>(authority, entries, host, n, r) && !(r matches Some(Ok(_))) {
                assert(can_try_step::<B, C>(authority, subject, host, r));
            } else {
                lemma_last_is_accepted::<B, C>(authority, entries, host, last, r);
                let found = if n == 0 {
                    r->Some_0->Ok_0
                } else {
                    choose|found: HostnameView| #[trigger]
                        can_try_step::<B, C>(
                            issuer_of(authority, entries, n),
                            entries[n],
                            host,
                            Some(Ok::<HostnameView, TlsError>(found)),
                        )
                };
                let step = Some(Ok::<HostnameView, TlsError>(found));
                assert(can_try_step::<B, C>(authority, subject, host, step));
                law_attempt_result_exactly::<B, C>(subject, rest, host, found, r);
                lemma_attempt_goes_on::<B, C>(authority, entries, host, last, found, r);
                assert(can_try_chain::<B, C>(subject, rest, host, found, r));
            }
        }
    }
}

/// Where the attempt does not end at the last entry, that entry is accepted.
proof fn lemma_last_is_accepted<B: RsaBackend, C: TlsClock>(
    authority: EntryView,
    entries: Seq<EntryView>,
    host: Option<Seq<u8>>,
    last: HostnameView,
    r: Option<Result<HostnameView, TlsError>>,
)
    requires
        entries.len() > 0,
        is_attempt_result::<B, C>(authority, entries, host, last, r),
        !(r matches Some(Ok(_))) ==> !attempt_ends_at::<B, C>(
            authority,
            entries,
            host,
            entries.len() - 1,
            r,
        ),
    ensures
        attempt_accepted::<B, C>(authority, entries, host, entries.len() - 1),
        !(r matches Some(Ok(_))) ==> entries.len() > 1,
{
    if !(r matches Some(Ok(_))) {
        let i = choose|i: int| #[trigger] attempt_ends_at::<B, C>(authority, entries, host, i, r);
        assert(i < entries.len() - 1);
    }
}

/// Where the last entry is accepted, the result is that of the other entries.
#[verifier::rlimit(60)]
proof fn lemma_attempt_goes_on<B: RsaBackend, C: TlsClock>(
    authority: EntryView,
    entries: Seq<EntryView>,
    host: Option<Seq<u8>>,
    last: HostnameView,
    names: HostnameView,
    r: Option<Result<HostnameView, TlsError>>,
)
    requires
        entries.len() > 0,
        can_try_step::<B, C>(
            authority,
            entries.last(),
            host,
            Some(Ok::<HostnameView, TlsError>(names)),
        ),
    ensures
        is_attempt_result::<B, C>(entries.last(), entries.drop_last(), host, names, r)
            ==> is_attempt_result::<B, C>(authority, entries, host, last, r),
        is_attempt_result::<B, C>(authority, entries, host, last, r) && (entries.len() == 1 ==> r
            == Some(Ok::<HostnameView, TlsError>(names))) && !(!(r matches Some(Ok(_)))
            && attempt_ends_at::<B, C>(authority, entries, host, entries.len() - 1, r))
            ==> is_attempt_result::<B, C>(entries.last(), entries.drop_last(), host, names, r),
{
    let n = entries.len() - 1;
    let subject = entries.last();
    let rest = entries.drop_last();
    lemma_issuers(authority, entries);
    assert(can_try_step::<B, C>(
        issuer_of(authority, entries, n),
        entries[n],
        host,
        Some(Ok::<HostnameView, TlsError>(names)),
    ));
    assert(attempt_accepted::<B, C>(authority, entries, host, n));
    assert forall|i: int|
        #![trigger attempt_accepted::<B, C>(authority, entries, host, i)]
        #![trigger attempt_accepted::<B, C>(subject, rest, host, i)]
        0 <= i < n implies attempt_accepted::<B, C>(authority, entries, host, i)
        == attempt_accepted::<B, C>(subject, rest, host, i) by {
        assert(issuer_of(authority, entries, i) == issuer_of(subject, rest, i));
    }
    if n > 0 {
        assert(issuer_of(authority, entries, 0) == issuer_of(subject, rest, 0));
    }
    if !(r matches Some(Ok(_))) {
        if is_attempt_result::<B, C>(subject, rest, host, names, r) {
            let i = choose|i: int| #[trigger] attempt_ends_at::<B, C>(subject, rest, host, i, r);
            assert(issuer_of(authority, entries, i) == issuer_of(subject, rest, i));
            assert(attempt_ends_at::<B, C>(authority, entries, host, i, r));
        }
        if is_attempt_result::<B, C>(authority, entries, host, last, r) && !attempt_ends_at::<B, C>(
            authority,
            entries,
            host,
            n,
            r,
        ) {
            let i = choose|i: int| #[trigger]
                attempt_ends_at::<B, C>(authority, entries, host, i, r);
            assert(issuer_of(authority, entries, i) == issuer_of(subject, rest, i));
            assert(attempt_ends_at::<B, C>(subject, rest, host, i, r));
        }
    }
}

/// Wherever the entry at `i` can be reached, with all entries behind it accepted, the
/// key of its issuer fits, whatever the clock shows.
pub open spec fn fits_where_reached<B: RsaBackend, C: TlsClock>(
    authority: EntryView,
    entries: Seq<EntryView>,
    host: Option<Seq<u8>>,
    i: int,
) -> bool {
    (forall|j: int|
        i < j < entries.len() ==> #[trigger] accepted::<B, C>(authority, entries, host, j)) ==> (
    forall|now: Option<u64>|
        call_ensures(C::now, (), now) ==> #[trigger] pair_fits(
            issuer_of(authority, entries, i),
            entries[i],
            now,
            host,
        ))
}

/// The keys of a list fit exactly where those fit that can be reached.
#[verifier::rlimit(40)]
pub proof fn law_chain_fits_exactly<B: RsaBackend, C: TlsClock>(
    authority: EntryView,
    entries: Seq<EntryView>,
    host: Option<Seq<u8>>,
)
    ensures
        chain_fits::<B, C>(authority, entries, host) <==> forall|i: int|
            0 <= i < entries.len() ==> #[trigger] fits_where_reached::<B, C>(
                authority,
                entries,
                host,
                i,
            ),
    decreases entries.len(),
{
    if entries.len() > 0 {
        let n = entries.len() - 1;
        let subject = entries.last();
        let rest = entries.drop_last();
        lemma_issuers(authority, entries);
        assert(entries[n] == subject);
        law_chain_fits_exactly::<B, C>(subject, rest, host);
        let last_accepted = accepted::<B, C>(authority, entries, host, n);
        assert(last_accepted == (exists|step: Result<HostnameView, TlsError>|
            #[trigger] can_step::<B, C>(authority, subject, host, step) && step is Ok)) by {
            if exists|step: Result<HostnameView, TlsError>|
                #[trigger] can_step::<B, C>(authority, subject, host, step) && step is Ok {
                let step = choose|step: Result<HostnameView, TlsError>|
                    #[trigger] can_step::<B, C>(authority, subject, host, step) && step is Ok;
                assert(can_step::<B, C>(
                    issuer_of(authority, entries, n),
                    entries[n],
                    host,
                    Ok::<HostnameView, TlsError>(step->Ok_0),
                ));
            }
            if last_accepted {
                let names = choose|names: HostnameView| #[trigger]
                    can_step::<B, C>(
                        issuer_of(authority, entries, n),
                        entries[n],
                        host,
                        Ok::<HostnameView, TlsError>(names),
                    );
                let step = Ok::<HostnameView, TlsError>(names);
                assert(can_step::<B, C>(authority, subject, host, step));
            }
        }
        assert forall|i: int|
            #![trigger fits_where_reached::<B, C>(authority, entries, host, i)]
            #![trigger fits_where_reached::<B, C>(subject, rest, host, i)]
            0 <= i < n implies fits_where_reached::<B, C>(authority, entries, host, i) == (
        last_accepted ==> fits_where_reached::<B, C>(subject, rest, host, i)) by {
            lemma_reached::<B, C>(authority, entries, host, i);
        }
        assert(fits_where_reached::<B, C>(authority, entries, host, n) == (forall|now: Option<u64>|
            call_ensures(C::now, (), now) ==> #[trigger] pair_fits(authority, subject, now, host)));
        if chain_fits::<B, C>(authority, entries, host) {
            assert forall|i: int| 0 <= i < entries.len() implies #[trigger] fits_where_reached::<B, C>(
                authority,
                entries,
                host,
                i,
            ) by {
                if i < n && last_accepted {
                    assert(fits_where_reached::<B, C>(subject, rest, host, i));
                }
            }
        }
        if forall|i: int|
            0 <= i < entries.len() ==> #[trigger] fits_where_reached::<B, C>(
                authority,
                entries,
                host,
                i,
            ) {
            assert(fits_where_reached::<B, C>(authority, entries, host, n));
            if last_accepted {
                assert forall|i: int| 0 <= i < rest.len() implies #[trigger] fits_where_reached::<B, C>(
                    subject,
                    rest,
                    host,
                    i,
                ) by {
                    assert(fits_where_reached::<B, C>(authority, entries, host, i));
                }
            }
        }
    }
}

/// An entry is reached where the last entry is accepted and it is reached in the rest
/// of the list.
proof fn lemma_reached<B: RsaBackend, C: TlsClock>(
    authority: EntryView,
    entries: Seq<EntryView>,
    host: Option<Seq<u8>>,
    i: int,
)
    requires
        0 <= i < entries.len() - 1,
    ensures
        fits_where_reached::<B, C>(authority, entries, host, i) == (accepted::<B, C>(
            authority,
            entries,
            host,
            entries.len() - 1,
        ) ==> fits_where_reached::<B, C>(entries.last(), entries.drop_last(), host, i)),
{
    let n = entries.len() - 1;
    let subject = entries.last();
    let rest = entries.drop_last();
    lemma_issuers(authority, entries);
    assert(issuer_of(authority, entries, i) == issuer_of(subject, rest, i));
    assert(rest[i] == entries[i]);
    assert forall|j: int|
        #![trigger accepted::<B, C>(authority, entries, host, j)]
        #![trigger accepted::<B, C>(subject, rest, host, j)]
        0 <= j < n implies accepted::<B, C>(authority, entries, host, j) == accepted::<B, C>(
        subject,
        rest,
        host,
        j,
    ) by {
        assert(issuer_of(authority, entries, j) == issuer_of(subject, rest, j));
    }
    let here = forall|j: int|
        i < j < entries.len() ==> #[trigger] accepted::<B, C>(authority, entries, host, j);
    let there = forall|j: int|
        i < j < rest.len() ==> #[trigger] accepted::<B, C>(subject, rest, host, j);
    assert(here == (accepted::<B, C>(authority, entries, host, n) && there));
}

/// The host, where one is asked for, is named.
pub open spec fn names_host(names: HostnameView, host: Option<Seq<u8>>) -> bool {
    host matches Some(h) ==> is_named(names, h)
}

/// A verified list is accepted exactly where the host that is asked for, if any, is
/// named and there is room for the list. Otherwise the error says which of these is
/// missing, the name first; and an error of the list is passed on.
pub proof fn law_outcome_exactly(
    chain: Result<HostnameView, TlsError>,
    host: Option<Seq<u8>>,
    room: bool,
)
    ensures
        chain matches Err(e) ==> chain_outcome(chain, host, room) == Err::<(), TlsError>(e),
        chain matches Ok(names) ==> {
            let r = chain_outcome(chain, host, room);
            &&& r == Ok::<(), TlsError>(()) <==> names_host(names, host) && room
            &&& r == Err::<(), TlsError>(TlsError::InvalidCertificate) <==> !names_host(names, host)
            &&& r == Err::<(), TlsError>(TlsError::OutOfMemory) <==> names_host(names, host) && !room
        },
{
    if let Ok(names) = chain {
        if let Some(h) = host {
            law_certificate_covers_exactly(names, h);
        }
    }
}

/// The common name is ignored beside alternative names: whether a server is accepted
/// does not depend on it, for every host.
pub proof fn law_common_name_is_ignored_beside_alternative_names(
    san_match: bool,
    a: Option<Seq<u8>>,
    b: Option<Seq<u8>>,
    host: Option<Seq<u8>>,
    room: bool,
)
    ensures
        ({
            let with_a = HostnameView { common_name: a, san_match: Some(san_match) };
            let with_b = HostnameView { common_name: b, san_match: Some(san_match) };
            &&& chain_outcome(Ok::<HostnameView, TlsError>(with_a), host, room) == chain_outcome(
                Ok::<HostnameView, TlsError>(with_b),
                host,
                room,
            )
            &&& san_match && room ==> chain_outcome(
                Ok::<HostnameView, TlsError>(with_a),
                host,
                room,
            ) == Ok::<(), TlsError>(())
        }),
{
}

/// Every entry of the list is accepted, and `names` is what its first entry says
/// about the host, or nothing for an empty list.
pub open spec fn accepted_with<B: RsaBackend, C: TlsClock>(
    authority: EntryView,
    entries: Seq<EntryView>,
    host: Option<Seq<u8>>,
    names: HostnameView,
) -> bool {
    &&& forall|i: int|
        0 <= i < entries.len() ==> #[trigger] accepted::<B, C>(authority, entries, host, i)
    &&& entries.len() == 0 ==> names.common_name is None && names.san_match is None
    &&& entries.len() > 0 ==> can_step::<B, C>(
        issuer_of(authority, entries, 0),
        entries[0],
        host,
        Ok::<HostnameView, TlsError>(names),
    )
}

/// The verification of a server can end with `r`, as far as its list, the host and
/// the room for the list go.
pub open spec fn is_server_result<B: RsaBackend, C: TlsClock>(
    authority: EntryView,
    entries: Seq<EntryView>,
    host: Option<Seq<u8>>,
    room: bool,
    r: Result<(), TlsError>,
) -> bool {
    ||| exists|i: int, e: TlsError|
        r == Err::<(), TlsError>(e) && #[trigger] refused_at::<B, C>(authority, entries, host, i, e)
    ||| exists|names: HostnameView| #[trigger]
        accepted_with::<B, C>(authority, entries, host, names) && {
            ||| names_host(names, host) && room && r == Ok::<(), TlsError>(())
            ||| !names_host(names, host) && r == Err::<(), TlsError>(TlsError::InvalidCertificate)
            ||| names_host(names, host) && !room && r == Err::<(), TlsError>(TlsError::OutOfMemory)
        }
}

/// The verification of a server has these results and no others: the error of an
/// entry that is refused, with all entries behind it accepted; and where every entry
/// is accepted, success if the first one names the host and there is room for the
/// list.
#[verifier::rlimit(40)]
pub proof fn law_server_result_exactly<B: RsaBackend, C: TlsClock>(
    authority: EntryView,
    entries: Seq<EntryView>,
    host: Option<Seq<u8>>,
    room: bool,
    r: Result<(), TlsError>,
)
    ensures
        (exists|chain: Result<HostnameView, TlsError>|
            #[trigger] can_chain::<B, C>(authority, entries, host, HostnameView::nothing(), chain) && r
                == chain_outcome(chain, host, room)) <==> is_server_result::<B, C>(
            authority,
            entries,
            host,
            room,
            r,
        ),
{
    let nothing = HostnameView::nothing();
    if let Ok(unit) = r {
        assert(r == Ok::<(), TlsError>(unit) && unit == ());
    }
    if exists|chain: Result<HostnameView, TlsError>|
        #[trigger] can_chain::<B, C>(authority, entries, host, nothing, chain) && r
            == chain_outcome(chain, host, room) {
        let chain = choose|chain: Result<HostnameView, TlsError>|
            #[trigger] can_chain::<B, C>(authority, entries, host, nothing, chain) && r
                == chain_outcome(chain, host, room);
        law_chain_result_exactly::<B, C>(authority, entries, host, nothing, chain);
        law_outcome_exactly(chain, host, room);
        match chain {
            Err(e) => {
                let i = choose|i: int| #[trigger]
                    refused_at::<B, C>(authority, entries, host, i, e);
                assert(refused_at::<B, C>(authority, entries, host, i, e));
            },
            Ok(names) => {
                assert(accepted_with::<B, C>(authority, entries, host, names));
            },
        }
    }
    if is_server_result::<B, C>(authority, entries, host, room, r) {
        if exists|i: int, e: TlsError|
            r == Err::<(), TlsError>(e) && #[trigger] refused_at::<B, C>(
                authority,
                entries,
                host,
                i,
                e,
            ) {
            let (i, e) = choose|i: int, e: TlsError|
                r == Err::<(), TlsError>(e) && #[trigger] refused_at::<B, C>(
                    authority,
                    entries,
                    host,
                    i,
                    e,
                );
            let chain = Err::<HostnameView, TlsError>(e);
            law_chain_result_exactly::<B, C>(authority, entries, host, nothing, chain);
            law_outcome_exactly(chain, host, room);
            assert(can_chain::<B, C>(authority, entries, host, nothing, chain));
        } else {
            let names = choose|names: HostnameView| #[trigger]
                accepted_with::<B, C>(authority, entries, host, names) && {
                    ||| names_host(names, host) && room && r == Ok::<(), TlsError>(())
                    ||| !names_host(names, host) && r == Err::<(), TlsError>(
                        TlsError::InvalidCertificate,
                    )
                    ||| names_host(names, host) && !room && r == Err::<(), TlsError>(
                        TlsError::OutOfMemory,
                    )
                };
            let chain = Ok::<HostnameView, TlsError>(names);
            law_chain_result_exactly::<B, C>(authority, entries, host, nothing, chain);
            law_outcome_exactly(chain, host, room);
            assert(can_chain::<B, C>(authority, entries, host, nothing, chain));
        }
    }
}

/// A good server is accepted: where no entry of its list can be refused, what its
/// first entry says always names the host, and there is room for the list, the
/// verification succeeds.
pub proof fn law_good_server_is_accepted<B: RsaBackend, C: TlsClock>(
    authority: EntryView,
    entries: Seq<EntryView>,
    host: Option<Seq<u8>>,
    chain: Result<HostnameView, TlsError>,
)
    requires
        entries.len() > 0,
        forall|i: int, step: Result<HostnameView, TlsError>|
            0 <= i < entries.len() && #[trigger] can_step::<B, C>(
                issuer_of(authority, entries, i),
                entries[i],
                host,
                step,
            ) ==> step is Ok,
        forall|names: HostnameView| #[trigger]
            can_step::<B, C>(
                issuer_of(authority, entries, 0),
                entries[0],
                host,
                Ok::<HostnameView, TlsError>(names),
            ) ==> names_host(names, host),
        can_chain::<B, C>(authority, entries, host, HostnameView::nothing(), chain),
    ensures
        chain_outcome(chain, host, true) == Ok::<(), TlsError>(()),
{
    law_chain_result_exactly::<B, C>(authority, entries, host, HostnameView::nothing(), chain);
    law_outcome_exactly(chain, host, true);
    if let Err(e) = chain {
        let i = choose|i: int| #[trigger] refused_at::<B, C>(authority, entries, host, i, e);
        assert(can_step::<B, C>(
            issuer_of(authority, entries, i),
            entries[i],
            host,
            Err::<HostnameView, TlsError>(e),
        ));
    }
}

/// The bytes that an entry holds.
pub open spec fn entry_bytes(entry: EntryView) -> Seq<u8> {
    match entry {
        EntryView::X509(data) => data,
        EntryView::RawPublicKey(data) => data,
    }
}

/// The bytes of all entries, one behind the other.
pub open spec fn all_bytes(entries: Seq<EntryView>) -> Seq<u8> {
    entries.map_values(|e: EntryView| entry_bytes(e)).flatten()
}

/// The room that a list takes is the number of bytes of its entries, of either kind,
/// put one behind the other; and the room for two lists is what each of them takes.
pub proof fn law_room_is_counted_in_bytes(entries: Seq<EntryView>, more: Seq<EntryView>)
    ensures
        entries_size(entries) == all_bytes(entries).len(),
        entries_size(entries + more) == entries_size(entries) + entries_size(more),
{
    lemma_all_bytes(entries);
    lemma_sizes_add(entries, more);
}

proof fn lemma_all_bytes(entries: Seq<EntryView>)
    ensures
        entries_size(entries) == all_bytes(entries).len(),
    decreases entries.len(),
{
    let pieces = entries.map_values(|e: EntryView| entry_bytes(e));
    if entries.len() > 0 {
        let before = entries.drop_last();
        lemma_all_bytes(before);
        assert(pieces.drop_last() =~= before.map_values(|e: EntryView| entry_bytes(e)));
        assert(pieces =~= pieces.drop_last().push(pieces.last()));
        pieces.drop_last().lemma_flatten_push(pieces.last());
    }
}

proof fn lemma_sizes_add(entries: Seq<EntryView>, more: Seq<EntryView>)
    ensures
        entries_size(entries + more) == entries_size(entries) + entries_size(more),
    decreases more.len(),
{
    if more.len() == 0 {
        assert(entries + more =~= entries);
    } else {
        lemma_sizes_add(entries, more.drop_last());
        assert((entries + more).drop_last() =~= entries + more.drop_last());
    }
}

/// The message is what a server signs in the handshake: 64 spaces, the context string
/// and a NUL, and the digest.
pub open spec fn is_server_message(message: Seq<u8>, digest: Seq<u8>) -> bool {
    &&& message.len() == 98 + digest.len()
    &&& forall|i: int| 0 <= i < 64 ==> #[trigger] message[i] == 0x20
    &&& forall|i: int|
        0 <= i < 33 ==> #[trigger] message[64 + i] as u32
            == "TLS 1.3, server CertificateVerify"@[i] as u32
    &&& message[97] == 0
    &&& forall|i: int| 0 <= i < digest.len() ==> #[trigger] message[98 + i] == digest[i]
}

/// The signed message is made as TLS 1.3 says, for a digest of any length: 64 bytes
/// 0x20, the text "TLS 1.3, server CertificateVerify", a NUL, and the digest.
#[verifier::rlimit(40)]
pub proof fn law_signed_message_exactly(message: Seq<u8>, digest: Seq<u8>)
    ensures
        "TLS 1.3, server CertificateVerify"@.len() == 33,
        message == signed_message(digest) <==> is_server_message(message, digest),
{
    reveal_strlit("TLS 1.3, server CertificateVerify");
    let text = "TLS 1.3, server CertificateVerify"@;
    let made = signed_message(digest);
    assert(text.len() == 33);
    lemma_context_string();
    assert forall|i: int| 0 <= i < 33 implies #[trigger] made[64 + i] as u32 == text[i] as u32 by {
        assert(made[64 + i] == context_string()[i]);
    }
    assert(made[97] == context_string()[33]);
    assert(is_server_message(made, digest));
    if is_server_message(message, digest) {
        assert forall|i: int| 0 <= i < message.len() implies message[i] == made[i] by {
            if 64 <= i < 97 {
                assert(message[64 + (i - 64)] as u32 == text[i - 64] as u32);
                assert(made[64 + (i - 64)] as u32 == text[i - 64] as u32);
            } else if 98 <= i {
                assert(message[98 + (i - 98)] == digest[i - 98]);
                assert(made[98 + (i - 98)] == digest[i - 98]);
            }
        }
        assert(message =~= made);
    }
}

/// The context string is the text, with a NUL behind it.
#[verifier::rlimit(40)]
proof fn lemma_context_string()
    ensures
        context_string().len() == 34,
        context_string()[33] == 0,
        forall|i: int|
            0 <= i < 33 ==> #[trigger] context_string()[i] as u32
                == "TLS 1.3, server CertificateVerify"@[i] as u32,
{
    reveal_strlit("TLS 1.3, server CertificateVerify");
}

/// A server's signature is verified over the message of its digest: the result is
/// that for any message of the right form, and a digest that is too long for one is
/// an error.
pub proof fn law_server_signature_exactly<B: RsaBackend>(
    digest: Seq<u8>,
    message: Seq<u8>,
    entries: Seq<EntryView>,
    scheme: SignatureScheme,
    signature: Seq<u8>,
    r: Result<(), TlsError>,
)
    requires
        is_server_message(message, digest),
    ensures
        can_verifier_result::<B>(digest, entries, scheme, signature, r) <==> {
            ||| digest.len() > 48 && r == Err::<(), TlsError>(TlsError::EncodeError)
            ||| digest.len() <= 48 && can_handshake_result::<B>(
                message,
                entries,
                scheme,
                signature,
                r,
            )
        },
        verifier_result(digest, entries, scheme, signature) == r <==> can_verifier_result::<
            SoftwareRsa,
        >(digest, entries, scheme, signature, r),
{
    law_signed_message_exactly(message, digest);
    lemma_handshake_result(message, entries, scheme, signature, r);
}

/// A step changes what it is about, and nothing else: a host name leaves the kept
/// certificates and digest alone, certificates leave the host name alone, and the use
/// of the digest leaves all else alone.
pub proof fn law_steps_change_what_they_are_about(
    state: VerifierView,
    host: Seq<u8>,
    digest: Seq<u8>,
    entries: Seq<EntryView>,
)
    ensures
        state.after(Step::Host(host)) == (VerifierView {
            host: Some(host),
            digest: state.digest,
            certificate: state.certificate,
        }),
        state.after(Step::Keep(digest, entries)) == (VerifierView {
            host: state.host,
            digest: Some(digest),
            certificate: Some(entries),
        }),
        state.after(Step::Use) == (VerifierView {
            host: state.host,
            digest: None,
            certificate: state.certificate,
        }),
        VerifierView::fresh() == (VerifierView { host: None, digest: None, certificate: None }),
{
}

/// The last host name, the last certificates and their digest count: later calls
/// replace what earlier ones set, in whatever order they come.
pub proof fn law_later_steps_replace_earlier_ones(
    state: VerifierView,
    h1: Seq<u8>,
    h2: Seq<u8>,
    d1: Seq<u8>,
    e1: Seq<EntryView>,
    d2: Seq<u8>,
    e2: Seq<EntryView>,
)
    ensures
        state.after(Step::Host(h1)).after(Step::Host(h2)) == state.after(Step::Host(h2)),
        state.after(Step::Keep(d1, e1)).after(Step::Keep(d2, e2)) == state.after(
            Step::Keep(d2, e2),
        ),
        state.after(Step::Host(h1)).after(Step::Keep(d1, e1)) == state.after(
            Step::Keep(d1, e1),
        ).after(Step::Host(h1)),
        state.after(Step::Host(h1)).after(Step::Use) == state.after(Step::Use).after(
            Step::Host(h1),
        ),
{
}

/// A signature can be verified exactly where a digest was kept, and either it is too
/// long for a message, or the key of the server fits the scheme.
pub proof fn law_signature_can_be_verified_exactly<B: RsaBackend>(
    state: VerifierView,
    scheme: SignatureScheme,
)
    requires
        state.digest is Some ==> state.certificate is Some,
    ensures
        state.can_verify::<B>(scheme) <==> (state.digest matches Some(d) && {
            ||| d.len() > 48
            ||| !(first_key(state.certificate->Some_0) matches Some(key) && {
                ||| scheme is Ed25519 && key.len() != 32
                ||| scheme is RsaPssRsaeSha256 && !B::takes_key(HashAlgorithm::Sha256, key)
            })
        }),
{
    law_handshake_fits_exactly::<B>(state.certificate->Some_0, scheme);
}

/// The digest of a transcript is what the cipher suite gives for it.
pub proof fn law_digest_comes_from_the_suite<CipherSuite: TlsCipherSuite>(
    transcript: &CipherSuite::Hash,
    digest: Seq<u8>,
)
    ensures
        can_digest::<CipherSuite>(transcript, digest) <==> exists|d: Vec<u8>|
            #[trigger] call_ensures(CipherSuite::digest, (transcript,), d) && d@ == digest,
{
}

} // verus!
