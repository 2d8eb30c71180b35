//! The mathematical values of the library's types show what is in them.

use vstd::prelude::*;
use vstd::string::StringSliceAdditionalSpecFns;
use crate::asn1::{element_views, Tlv, TlvView};
use crate::buffers::name_bytes;
use crate::cert_verifier::{attempt_view, OwnedEntry};
use crate::chain::{entry_views, CertificateEntryRef, CertificateRef, EntryView};
use crate::error::TlsError;
use crate::hostname::{HostnameResult, HostnameView};
use crate::san::host_bytes;
use crate::time::{DateTime, Time};
use crate::verify::{optional_name, result_view, SignedCertificate};
use crate::x509::{
    attribute_views, name_views, optional_bytes, AlgorithmIdentifier, AttributeTypeAndValue,
    DecodedCertificate, TbsCertificate,
};

verus! {

/// Entries show their bytes and what they are.
pub proof fn law_entries_show_their_bytes(data: &[u8], owned: Vec<u8>)
    ensures
        CertificateEntryRef::X509(data)@ == EntryView::X509(data@),
        CertificateEntryRef::RawPublicKey(data)@ == EntryView::RawPublicKey(data@),
        OwnedEntry::X509(owned)@ == EntryView::X509(owned@),
        OwnedEntry::RawPublicKey(owned)@ == EntryView::RawPublicKey(owned@),
{
}

/// A certificate list shows its entries, all of them and in their order.
pub proof fn law_lists_show_their_entries(list: CertificateRef)
    ensures
        list@.len() == list.entries@.len(),
        forall|i: int| 0 <= i < list@.len() ==> #[trigger] list@[i] == list.entries@[i]@,
        entry_views(list.entries@) == list@,
{
}

/// Elements show their tag and their content, all of them and in their order.
pub proof fn law_elements_show_their_content(t: Tlv, list: Seq<Tlv>)
    ensures
        t@ == (TlvView { tag: t.tag, value: t.value@ }),
        element_views(list).len() == list.len(),
        forall|i: int| 0 <= i < list.len() ==> #[trigger] element_views(list)[i] == list[i]@,
{
}

/// Attributes show their type and their value, and names show their attributes, all
/// of them and in their order.
pub proof fn law_names_show_their_attributes(
    a: AttributeTypeAndValue,
    attributes: Seq<AttributeTypeAndValue>,
    names: Seq<Vec<AttributeTypeAndValue>>,
)
    ensures
        a@.oid == a.oid@,
        a@.value == a.value@,
        attribute_views(attributes).len() == attributes.len(),
        forall|i: int|
            0 <= i < attributes.len() ==> #[trigger] attribute_views(attributes)[i]
                == attributes[i]@,
        name_views(names).len() == names.len(),
        forall|i: int|
            0 <= i < names.len() ==> #[trigger] name_views(names)[i] == attribute_views(names[i]@),
{
}

/// Optional values show what they hold.
pub proof fn law_options_show_what_they_hold(
    bytes: &[u8],
    name: heapless::String<64>,
    host: &str,
)
    ensures
        optional_bytes(Some(bytes)) == Some(bytes@),
        optional_bytes(None) is None,
        optional_name(Some(name)) == Some(name_bytes(name)),
        optional_name(None) is None,
        host_bytes(Some(host)) == Some(host.spec_bytes()),
        host_bytes(None) is None,
{
}

/// A certificate shows its fields.
pub proof fn law_certificates_show_their_fields(
    c: DecodedCertificate,
    t: TbsCertificate,
    a: AlgorithmIdentifier,
)
    ensures
        c@.tbs == c.tbs_certificate@,
        c@.signature_algorithm == c.signature_algorithm@,
        c@.signature == optional_bytes(c.signature),
        t@.subject == name_views(t.subject@),
        t@.not_before == t.not_before,
        t@.not_after == t.not_after,
        t@.public_key == optional_bytes(t.public_key),
        t@.extensions == optional_bytes(t.extensions),
        a@.oid == a.oid@,
        a.parameters is None ==> a@.parameters is None,
        a.parameters matches Some(p) ==> a@.parameters == Some(p@),
{
}

/// A certificate whose signature is still to be checked shows what is to be checked.
pub proof fn law_examined_certificates_show_their_fields(s: SignedCertificate)
    ensures
        s@.algorithm == s.algorithm@,
        s@.key == s.key@,
        s@.message == s.message@,
        s@.signature == optional_bytes(s.signature),
        s@.names == s.names@,
{
}

/// The names of a certificate show its common name and what its alternative names say.
pub proof fn law_names_show_what_they_say(names: HostnameResult)
    ensures
        names@.common_name == optional_name(names.common_name),
        names@.san_match == names.san_match,
{
}

/// Results show the value or the error that they hold.
pub proof fn law_results_show_what_they_hold(names: HostnameResult, e: TlsError)
    ensures
        result_view(Ok::<HostnameResult, TlsError>(names)) == Ok::<HostnameView, TlsError>(names@),
        result_view(Err::<HostnameResult, TlsError>(e)) == Err::<HostnameView, TlsError>(e),
        attempt_view(Some(Ok::<HostnameResult, TlsError>(names))) == Some(Ok::<HostnameView, TlsError>(names@)),
        attempt_view(Some(Err::<HostnameResult, TlsError>(e))) == Some(Err::<HostnameView, TlsError>(e)),
        attempt_view(None) is None,
{
}

/// A time is the date that is written in it, whichever form it has.
pub proof fn law_times_show_their_date(dt: DateTime)
    ensures
        Time::UtcTime(dt).date_time() == dt,
        Time::GeneralTime(dt).date_time() == dt,
{
}

} // verus!
