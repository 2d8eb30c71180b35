//! The fields of a certificate that verification reads.
//!
//! A certificate is
//!
//! ```text
//! SEQUENCE {
//!     SEQUENCE { [0] version OPTIONAL, serial, algorithm, issuer, validity,
//!                subject, public key, [3] extensions OPTIONAL },
//!     algorithm,
//!     BIT STRING }
//! ```

use vstd::prelude::*;
use crate::asn1::{
    after_sequence_header, bit_string, element_views, elements, header, integer_is_valid,
    is_bit_string, is_integer, is_oid, oid_is_valid, read_elements, tlv_bytes, whole_bytes, Tlv,
    TlvView,
};
use crate::error::TlsError;
use crate::time::{
    generalized_time_value, read_generalized_time, read_utc_time, utc_time_value, Time,
};

verus! {

/// An algorithm identifier: the object identifier, and the element that holds
/// the parameters.
pub struct AlgorithmView {
    pub oid: Seq<u8>,
    pub parameters: Option<TlvView>,
}

/// An attribute of a name: its type, and the content of its value.
pub struct AttributeView {
    pub oid: Seq<u8>,
    pub value: Seq<u8>,
}

/// The signed part of a certificate.
pub struct TbsView {
    /// The relative names of the subject, each a list of attributes.
    pub subject: Seq<Seq<AttributeView>>,
    pub not_before: Time,
    pub not_after: Time,
    /// The public key, where it is made of whole bytes.
    pub public_key: Option<Seq<u8>>,
    /// The content of the list of extensions.
    pub extensions: Option<Seq<u8>>,
}

/// A certificate.
pub struct CertificateView {
    pub tbs: TbsView,
    pub signature_algorithm: AlgorithmView,
    /// The signature, where it is made of whole bytes.
    pub signature: Option<Seq<u8>>,
}

/// The algorithm identifier that an element is.
pub open spec fn algorithm(t: TlvView) -> Option<AlgorithmView> {
    match elements(t.value) {
        Some(f) if t.tag == 0x30 && 1 <= f.len() <= 2 && f[0].tag == 0x06 && is_oid(f[0].value)
            => Some(
            AlgorithmView {
                oid: f[0].value,
                parameters: if f.len() == 2 {
                    Some(f[1])
                } else {
                    None
                },
            },
        ),
        _ => None,
    }
}

/// The attribute that an element is.
pub open spec fn attribute(t: TlvView) -> Option<AttributeView> {
    match elements(t.value) {
        Some(f) if t.tag == 0x30 && f.len() == 2 && f[0].tag == 0x06 && is_oid(f[0].value) => Some(
            AttributeView { oid: f[0].value, value: f[1].value },
        ),
        _ => None,
    }
}

/// The attributes of the relative name that an element is.
pub open spec fn relative_name(t: TlvView) -> Option<Seq<AttributeView>> {
    match elements(t.value) {
        Some(f) if t.tag == 0x31 && (forall|i: int|
            0 <= i < f.len() ==> attribute(#[trigger] f[i]) is Some) => Some(
            Seq::new(f.len(), |i: int| attribute(f[i])->Some_0),
        ),
        _ => None,
    }
}

/// The relative names of the name that an element is.
pub open spec fn name(t: TlvView) -> Option<Seq<Seq<AttributeView>>> {
    match elements(t.value) {
        Some(f) if t.tag == 0x30 && (forall|i: int|
            0 <= i < f.len() ==> relative_name(#[trigger] f[i]) is Some) => Some(
            Seq::new(f.len(), |i: int| relative_name(f[i])->Some_0),
        ),
        _ => None,
    }
}

/// The time that an element is.
pub open spec fn time(t: TlvView) -> Option<Time> {
    if t.tag == 0x17 {
        match utc_time_value(t.value) {
            Some(dt) => Some(Time::UtcTime(dt)),
            None => None,
        }
    } else if t.tag == 0x18 {
        match generalized_time_value(t.value) {
            Some(dt) => Some(Time::GeneralTime(dt)),
            None => None,
        }
    } else {
        None
    }
}

/// The period that an element is.
pub open spec fn validity(t: TlvView) -> Option<(Time, Time)> {
    match elements(t.value) {
        Some(f) if t.tag == 0x30 && f.len() == 2 => match (time(f[0]), time(f[1])) {
            (Some(not_before), Some(not_after)) => Some((not_before, not_after)),
            _ => None,
        },
        _ => None,
    }
}

/// The key inside the public key information that an element is.
pub open spec fn public_key(t: TlvView) -> Option<Option<Seq<u8>>> {
    match elements(t.value) {
        Some(f) if t.tag == 0x30 && f.len() == 2 && algorithm(f[0]) is Some && f[1].tag == 0x03
            && is_bit_string(f[1].value) => Some(whole_bytes(f[1].value)),
        _ => None,
    }
}

/// The element is a version number.
pub open spec fn is_version(t: TlvView) -> bool {
    t.tag == 0xa0 && (elements(t.value) matches Some(f) && f.len() == 1 && f[0].tag == 0x02
        && f[0].value.len() == 1 && f[0].value[0] <= 2)
}

/// The content of the one element that the extensions field holds.
pub open spec fn extensions(t: TlvView) -> Option<Seq<u8>> {
    match elements(t.value) {
        Some(f) if t.tag == 0xa3 && f.len() == 1 => Some(f[0].value),
        _ => None,
    }
}

/// The signed part that the fields from the serial number on are.
pub open spec fn tbs_fields(f: Seq<TlvView>) -> Option<TbsView> {
    if !(6 <= f.len() <= 7 && f[0].tag == 0x02 && is_integer(f[0].value) && algorithm(f[1]) is Some
        && name(f[2]) is Some) {
        None
    } else if f.len() == 7 && extensions(f[6]) is None {
        None
    } else {
        match (validity(f[3]), name(f[4]), public_key(f[5])) {
            (Some((not_before, not_after)), Some(subject), Some(key)) => Some(
                TbsView {
                    subject,
                    not_before,
                    not_after,
                    public_key: key,
                    extensions: if f.len() == 7 {
                        extensions(f[6])
                    } else {
                        None
                    },
                },
            ),
            _ => None,
        }
    }
}

/// The signed part of a certificate that an element is.
pub open spec fn tbs(t: TlvView) -> Option<TbsView> {
    match elements(t.value) {
        Some(f) if t.tag == 0x30 => if f.len() > 0 && f[0].tag == 0xa0 {
            if is_version(f[0]) {
                tbs_fields(f.skip(1))
            } else {
                None
            }
        } else {
            tbs_fields(f)
        },
        _ => None,
    }
}

/// The certificate that the three fields are.
pub open spec fn certificate_fields(f: Seq<TlvView>) -> Option<CertificateView> {
    if f.len() == 3 && f[2].tag == 0x03 && is_bit_string(f[2].value) {
        match (tbs(f[0]), algorithm(f[1])) {
            (Some(signed), Some(signature_algorithm)) => Some(
                CertificateView {
                    tbs: signed,
                    signature_algorithm,
                    signature: whole_bytes(f[2].value),
                },
            ),
            _ => None,
        }
    } else {
        None
    }
}

/// The certificate that the bytes encode.
pub open spec fn certificate(input: Seq<u8>) -> Option<CertificateView> {
    match elements(input) {
        Some(f) if f.len() == 1 && f[0].tag == 0x30 => match elements(f[0].value) {
            Some(fields) => certificate_fields(fields),
            None => None,
        },
        _ => None,
    }
}

/// The bytes of the signed part, its header included: the sequence that the
/// outer sequence starts with.
pub open spec fn signed_bytes(input: Seq<u8>) -> Option<Seq<u8>> {
    match header(input) {
        Some((outer, _)) if input[0] == 0x30 => {
            let rest = input.skip(outer);
            match header(rest) {
                Some((hdr, len)) if rest[0] == 0x30 && hdr + len <= rest.len() => Some(
                    rest.take(hdr + len),
                ),
                _ => None,
            }
        },
        _ => None,
    }
}

/// An algorithm identifier.
#[derive(Clone, Copy)]
pub struct AlgorithmIdentifier<'a> {
    /// The object identifier, as content bytes.
    pub oid: &'a [u8],
    /// The element that holds the parameters.
    pub parameters: Option<Tlv<'a>>,
}

impl<'a> View for AlgorithmIdentifier<'a> {
    type V = AlgorithmView;

    open spec fn view(&self) -> AlgorithmView {
        AlgorithmView {
            oid: self.oid@,
            parameters: match self.parameters {
                Some(p) => Some(p@),
                None => None,
            },
        }
    }
}

/// An attribute of a name.
#[derive(Clone, Copy)]
pub struct AttributeTypeAndValue<'a> {
    /// The object identifier of the type, as content bytes.
    pub oid: &'a [u8],
    /// The content of the value.
    pub value: &'a [u8],
}

impl<'a> View for AttributeTypeAndValue<'a> {
    type V = AttributeView;

    open spec fn view(&self) -> AttributeView {
        AttributeView { oid: self.oid@, value: self.value@ }
    }
}

/// The views of the attributes of a relative name.
pub open spec fn attribute_views(list: Seq<AttributeTypeAndValue>) -> Seq<AttributeView> {
    Seq::new(list.len(), |i: int| list[i]@)
}

/// The views of the relative names of a name.
pub open spec fn name_views(list: Seq<Vec<AttributeTypeAndValue>>) -> Seq<Seq<AttributeView>> {
    Seq::new(list.len(), |i: int| attribute_views(list[i]@))
}

/// The bytes of an optional slice.
pub open spec fn optional_bytes(bytes: Option<&[u8]>) -> Option<Seq<u8>> {
    match bytes {
        Some(b) => Some(b@),
        None => None,
    }
}

/// The signed part of a certificate.
pub struct TbsCertificate<'a> {
    /// The relative names of the subject, each a list of attributes.
    pub subject: Vec<Vec<AttributeTypeAndValue<'a>>>,
    pub not_before: Time,
    pub not_after: Time,
    /// The public key, where it is made of whole bytes.
    pub public_key: Option<&'a [u8]>,
    /// The content of the list of extensions.
    pub extensions: Option<&'a [u8]>,
}

impl<'a> View for TbsCertificate<'a> {
    type V = TbsView;

    open spec fn view(&self) -> TbsView {
        TbsView {
            subject: name_views(self.subject@),
            not_before: self.not_before,
            not_after: self.not_after,
            public_key: optional_bytes(self.public_key),
            extensions: optional_bytes(self.extensions),
        }
    }
}

/// A certificate whose fields point into its encoding.
pub struct DecodedCertificate<'a> {
    pub tbs_certificate: TbsCertificate<'a>,
    pub signature_algorithm: AlgorithmIdentifier<'a>,
    /// The signature, where it is made of whole bytes.
    pub signature: Option<&'a [u8]>,
}

impl<'a> View for DecodedCertificate<'a> {
    type V = CertificateView;

    open spec fn view(&self) -> CertificateView {
        CertificateView {
            tbs: self.tbs_certificate@,
            signature_algorithm: self.signature_algorithm@,
            signature: optional_bytes(self.signature),
        }
    }
}

fn read_algorithm<'a>(t: Tlv<'a>) -> (r: Option<AlgorithmIdentifier<'a>>)
    ensures
        match r {
            Some(a) => algorithm(t@) == Some(a@),
            None => algorithm(t@) is None,
        },
{
    let f: Vec<Tlv<'a>> = match read_elements(t.value) {
        Some(f) => f,
        None => {
            return None;
        },
    };
    if t.tag != 0x30 || f.len() == 0 || f.len() > 2 || f[0].tag != 0x06 || !oid_is_valid(
        f[0].value,
    ) {
        return None;
    }
    let parameters: Option<Tlv<'a>> = if f.len() == 2 {
        Some(f[1])
    } else {
        None
    };
    Some(AlgorithmIdentifier { oid: f[0].value, parameters })
}

fn read_attribute<'a>(t: Tlv<'a>) -> (r: Option<AttributeTypeAndValue<'a>>)
    ensures
        match r {
            Some(a) => attribute(t@) == Some(a@),
            None => attribute(t@) is None,
        },
{
    let f: Vec<Tlv<'a>> = match read_elements(t.value) {
        Some(f) => f,
        None => {
            return None;
        },
    };
    if t.tag != 0x30 || f.len() != 2 || f[0].tag != 0x06 || !oid_is_valid(f[0].value) {
        return None;
    }
    Some(AttributeTypeAndValue { oid: f[0].value, value: f[1].value })
}

fn read_relative_name<'a>(t: Tlv<'a>) -> (r: Option<Vec<AttributeTypeAndValue<'a>>>)
    ensures
        match r {
            Some(list) => relative_name(t@) == Some(attribute_views(list@)),
            None => relative_name(t@) is None,
        },
{
    let f: Vec<Tlv<'a>> = match read_elements(t.value) {
        Some(f) => f,
        None => {
            return None;
        },
    };
    if t.tag != 0x31 {
        return None;
    }
    let ghost fields = element_views(f@);
    let mut list: Vec<AttributeTypeAndValue<'a>> = Vec::new();
    let mut i: usize = 0;
    while i < f.len()
        invariant
            i == list@.len(),
            i <= f@.len(),
            fields == element_views(f@),
            elements(t.value@) == Some(fields),
            forall|j: int| 0 <= j < i ==> attribute(#[trigger] fields[j]) == Some(list@[j]@),
        decreases f@.len() - i,
    {
        assert(fields[i as int] == f@[i as int]@);
        match read_attribute(f[i]) {
            None => {
                return None;
            },
            Some(a) => {
                list.push(a);
            },
        }
        i = i + 1;
    }
    assert(relative_name(t@) is Some);
    assert(relative_name(t@)->Some_0 =~= attribute_views(list@));
    Some(list)
}

fn read_name<'a>(t: Tlv<'a>) -> (r: Option<Vec<Vec<AttributeTypeAndValue<'a>>>>)
    ensures
        match r {
            Some(list) => name(t@) == Some(name_views(list@)),
            None => name(t@) is None,
        },
{
    let f: Vec<Tlv<'a>> = match read_elements(t.value) {
        Some(f) => f,
        None => {
            return None;
        },
    };
    if t.tag != 0x30 {
        return None;
    }
    let ghost fields = element_views(f@);
    let mut list: Vec<Vec<AttributeTypeAndValue<'a>>> = Vec::new();
    let mut i: usize = 0;
    while i < f.len()
        invariant
            i == list@.len(),
            i <= f@.len(),
            fields == element_views(f@),
            elements(t.value@) == Some(fields),
            forall|j: int|
                0 <= j < i ==> relative_name(#[trigger] fields[j]) == Some(
                    attribute_views(list@[j]@),
                ),
        decreases f@.len() - i,
    {
        assert(fields[i as int] == f@[i as int]@);
        match read_relative_name(f[i]) {
            None => {
                return None;
            },
            Some(a) => {
                list.push(a);
            },
        }
        i = i + 1;
    }
    assert(name(t@) is Some);
    assert(name(t@)->Some_0 =~= name_views(list@));
    Some(list)
}

fn read_time<'a>(t: Tlv<'a>) -> (r: Option<Time>)
    ensures
        r == time(t@),
        r matches Some(time) ==> time.valid(),
{
    if t.tag == 0x17 {
        match read_utc_time(t.value) {
            Some(dt) => {
                let ghost digits = t.value@.take(12);
                assert(0x30 <= digits[0] <= 0x39 && 0x30 <= digits[1] <= 0x39);
                Some(Time::UtcTime(dt))
            },
            None => None,
        }
    } else if t.tag == 0x18 {
        match read_generalized_time(t.value) {
            Some(dt) => Some(Time::GeneralTime(dt)),
            None => None,
        }
    } else {
        None
    }
}

fn read_validity<'a>(t: Tlv<'a>) -> (r: Option<(Time, Time)>)
    ensures
        r == validity(t@),
        r matches Some((not_before, not_after)) ==> not_before.valid() && not_after.valid(),
{
    let f: Vec<Tlv<'a>> = match read_elements(t.value) {
        Some(f) => f,
        None => {
            return None;
        },
    };
    if t.tag != 0x30 || f.len() != 2 {
        return None;
    }
    match (read_time(f[0]), read_time(f[1])) {
        (Some(not_before), Some(not_after)) => Some((not_before, not_after)),
        _ => None,
    }
}

fn read_public_key<'a>(t: Tlv<'a>) -> (r: Option<Option<&'a [u8]>>)
    ensures
        match r {
            Some(key) => public_key(t@) == Some(optional_bytes(key)),
            None => public_key(t@) is None,
        },
{
    let f: Vec<Tlv<'a>> = match read_elements(t.value) {
        Some(f) => f,
        None => {
            return None;
        },
    };
    if t.tag != 0x30 || f.len() != 2 || read_algorithm(f[0]).is_none() || f[1].tag != 0x03 {
        return None;
    }
    bit_string(f[1].value)
}

fn version_is_valid<'a>(t: Tlv<'a>) -> (r: bool)
    ensures
        r == is_version(t@),
{
    match read_elements(t.value) {
        Some(f) => t.tag == 0xa0 && f.len() == 1 && f[0].tag == 0x02 && f[0].value.len() == 1
            && f[0].value[0] <= 2,
        None => false,
    }
}

fn read_extensions<'a>(t: Tlv<'a>) -> (r: Option<&'a [u8]>)
    ensures
        optional_bytes(r) == extensions(t@),
{
    match read_elements(t.value) {
        Some(f) => {
            if t.tag == 0xa3 && f.len() == 1 {
                Some(f[0].value)
            } else {
                None
            }
        },
        None => None,
    }
}

/// The signed part that the fields from position `k` on are.
fn read_tbs_fields<'a>(f: &Vec<Tlv<'a>>, k: usize) -> (r: Option<TbsCertificate<'a>>)
    requires
        k <= 1,
        k <= f@.len(),
    ensures
        match r {
            Some(signed) => tbs_fields(element_views(f@).skip(k as int)) == Some(signed@)
                && signed.not_before.valid() && signed.not_after.valid(),
            None => tbs_fields(element_views(f@).skip(k as int)) is None,
        },
{
    let n: usize = f.len() - k;
    if n < 6 || n > 7 {
        return None;
    }
    let ghost fields = element_views(f@).skip(k as int);
    assert(forall|j: int| 0 <= j < n ==> #[trigger] fields[j] == f@[j + k]@);
    if f[k].tag != 0x02 || !integer_is_valid(f[k].value) || read_algorithm(f[k + 1]).is_none() {
        return None;
    }
    if read_name(f[k + 2]).is_none() {
        return None;
    }
    let extensions: Option<&'a [u8]> = if n == 7 {
        let extensions: Option<&'a [u8]> = read_extensions(f[k + 6]);
        if extensions.is_none() {
            return None;
        }
        extensions
    } else {
        None
    };
    match (read_validity(f[k + 3]), read_name(f[k + 4]), read_public_key(f[k + 5])) {
        (Some((not_before, not_after)), Some(subject), Some(public_key)) => Some(
            TbsCertificate { subject, not_before, not_after, public_key, extensions },
        ),
        _ => None,
    }
}

fn read_tbs<'a>(t: Tlv<'a>) -> (r: Option<TbsCertificate<'a>>)
    ensures
        match r {
            Some(signed) => tbs(t@) == Some(signed@) && signed.not_before.valid()
                && signed.not_after.valid(),
            None => tbs(t@) is None,
        },
{
    let f: Vec<Tlv<'a>> = match read_elements(t.value) {
        Some(f) => f,
        None => {
            return None;
        },
    };
    if t.tag != 0x30 {
        return None;
    }
    if f.len() > 0 && f[0].tag == 0xa0 {
        if version_is_valid(f[0]) {
            read_tbs_fields(&f, 1)
        } else {
            None
        }
    } else {
        assert(element_views(f@).skip(0) =~= element_views(f@));
        read_tbs_fields(&f, 0)
    }
}

impl<'a> DecodedCertificate<'a> {
    /// Decode a certificate, with no bytes left over.
    pub fn from_der(input: &'a [u8]) -> (r: Result<DecodedCertificate<'a>, TlsError>)
        ensures
            match r {
                Ok(decoded) => certificate(input@) == Some(decoded@)
                    && decoded.tbs_certificate.not_before.valid()
                    && decoded.tbs_certificate.not_after.valid(),
                Err(e) => certificate(input@) is None && e == TlsError::DecodeError,
            },
    {
        let outer: Vec<Tlv<'a>> = match read_elements(input) {
            Some(outer) => outer,
            None => {
                return Err(TlsError::DecodeError);
            },
        };
        if outer.len() != 1 || outer[0].tag != 0x30 {
            return Err(TlsError::DecodeError);
        }
        let f: Vec<Tlv<'a>> = match read_elements(outer[0].value) {
            Some(f) => f,
            None => {
                return Err(TlsError::DecodeError);
            },
        };
        if f.len() != 3 || f[2].tag != 0x03 {
            return Err(TlsError::DecodeError);
        }
        match (read_tbs(f[0]), read_algorithm(f[1]), bit_string(f[2].value)) {
            (Some(tbs_certificate), Some(signature_algorithm), Some(signature)) => Ok(
                DecodedCertificate { tbs_certificate, signature_algorithm, signature },
            ),
            _ => Err(TlsError::DecodeError),
        }
    }
}

/// The bytes of the signed part of a certificate, its header included.
pub fn get_certificate_tlv_bytes(input: &[u8]) -> (r: Result<&[u8], TlsError>)
    ensures
        match r {
            Ok(bytes) => signed_bytes(input@) == Some(bytes@),
            Err(e) => signed_bytes(input@) is None && e == TlsError::DecodeError,
        },
{
    let rest: &[u8] = match after_sequence_header(input) {
        Some(rest) => rest,
        None => {
            return Err(TlsError::DecodeError);
        },
    };
    if rest.len() == 0 || rest[0] != 0x30 {
        return Err(TlsError::DecodeError);
    }
    match tlv_bytes(rest) {
        Some(bytes) => Ok(bytes),
        None => Err(TlsError::DecodeError),
    }
}

} // verus!
