//! Elements of the Distinguished Encoding Rules.
//!
//! The headers, bit strings, integers and object identifiers are decoded by the
//! `der` and `const-oid` crates, in the functions marked below, whose contracts
//! are believed. How the elements of a sequence follow each other is proved.

use vstd::prelude::*;
use der::{Decode, Reader};

verus! {

/// A single tag byte of the universal class that DER assigns a type.
pub open spec fn is_universal_tag(b: u8) -> bool {
    ||| 0x01 <= b <= 0x06
    ||| 0x09 <= b <= 0x0a
    ||| 0x0c <= b <= 0x0d
    ||| 0x12 <= b <= 0x18
    ||| 0x1a <= b <= 0x1b
    ||| b == 0x1e
    ||| 0x30 <= b <= 0x31
}

/// The number of bytes from `at` on, up to the first one below 0x80.
pub open spec fn continued_bytes(input: Seq<u8>, at: int) -> int
    decreases input.len() - at,
{
    if at < input.len() && input[at] >= 0x80 {
        1 + continued_bytes(input, at + 1)
    } else {
        0
    }
}

/// The number that the bytes write, seven bits in each, the most significant
/// first.
pub open spec fn base128(bytes: Seq<u8>) -> int
    decreases bytes.len(),
{
    if bytes.len() == 0 {
        0
    } else {
        base128(bytes.drop_last()) * 0x80 + bytes.last() % 0x80
    }
}

/// The number of bytes of a tag whose number does not fit in its first byte. The
/// number follows with seven bits in each byte, all but the last from 0x80 on. It
/// starts with no zeros, is at least 31 and fits in 32 bits.
pub open spec fn long_tag_bytes(input: Seq<u8>) -> Option<int> {
    let size = 2 + continued_bytes(input, 1);
    if size <= input.len() && input[1] != 0x80 && 31 <= base128(input.subrange(1, size))
        <= u32::MAX {
        Some(size)
    } else {
        None
    }
}

/// The number of bytes of the tag that the encoding starts with.
pub open spec fn tag_bytes(input: Seq<u8>) -> Option<int> {
    if input.len() == 0 {
        None
    } else if input[0] < 0x40 {
        if is_universal_tag(input[0]) {
            Some(1)
        } else {
            None
        }
    } else if input[0] % 0x20 != 0x1f {
        Some(1)
    } else {
        long_tag_bytes(input)
    }
}

/// The number that the bytes write, the most significant byte first.
pub open spec fn big_endian(bytes: Seq<u8>) -> int
    decreases bytes.len(),
{
    if bytes.len() == 0 {
        0
    } else {
        big_endian(bytes.drop_last()) * 0x100 + bytes.last()
    }
}

/// The smallest length that is written with `count` further bytes.
pub open spec fn least_length(count: int) -> int {
    if count == 1 {
        0x80
    } else if count == 2 {
        0x100
    } else if count == 3 {
        0x10000
    } else {
        0x1000000
    }
}

/// The number of bytes of the length at `at`, and the length. Up to four bytes
/// may follow the first one, and no more than the length needs.
pub open spec fn length_at(input: Seq<u8>, at: int) -> Option<(int, int)> {
    if at >= input.len() {
        None
    } else if input[at] < 0x80 {
        Some((1, input[at] as int))
    } else if 0x81 <= input[at] <= 0x84 {
        let count = input[at] - 0x80;
        let len = big_endian(input.subrange(at + 1, at + 1 + count));
        if at + 1 + count <= input.len() && len >= least_length(count) {
            Some((1 + count, len))
        } else {
            None
        }
    } else {
        None
    }
}

/// The number of header bytes, and the length of the content, of the element
/// that the encoding starts with. An encoding has at most `u32::MAX` bytes.
pub open spec fn header(input: Seq<u8>) -> Option<(int, int)> {
    match tag_bytes(input) {
        Some(tag) if input.len() <= u32::MAX => match length_at(input, tag) {
            Some((octets, len)) => Some((tag + octets, len)),
            None => None,
        },
        _ => None,
    }
}

/// An element: its first tag byte and its content.
pub struct TlvView {
    pub tag: u8,
    pub value: Seq<u8>,
}

/// The element that the encoding starts with, and its number of bytes.
pub open spec fn first_element(input: Seq<u8>) -> Option<(TlvView, int)> {
    match header(input) {
        Some((hdr, len)) if 1 <= hdr <= hdr + len <= input.len() => Some(
            (TlvView { tag: input[0], value: input.subrange(hdr, hdr + len) }, hdr + len),
        ),
        _ => None,
    }
}

/// The elements that the encoding consists of, with nothing left over.
pub open spec fn elements(input: Seq<u8>) -> Option<Seq<TlvView>>
    decreases input.len(),
{
    if input.len() == 0 {
        Some(seq![])
    } else {
        match first_element(input) {
            Some((first, size)) => match elements(input.skip(size)) {
                Some(more) => Some(seq![first] + more),
                None => None,
            },
            None => None,
        }
    }
}

/// An element inside a certificate.
#[derive(Clone, Copy)]
pub struct Tlv<'a> {
    /// The first byte of the tag.
    pub tag: u8,
    /// The content.
    pub value: &'a [u8],
}

impl<'a> View for Tlv<'a> {
    type V = TlvView;

    open spec fn view(&self) -> TlvView {
        TlvView { tag: self.tag, value: self.value@ }
    }
}

/// The views of a list of elements.
pub open spec fn element_views(list: Seq<Tlv>) -> Seq<TlvView> {
    list.map_values(|t: Tlv| t@)
}

/// `der::Header::from_der_partial`: the length of the content, and what follows
/// the header, where the bytes start with a header.
#[verifier::external_body]
fn read_header(input: &[u8]) -> (r: Option<(usize, &[u8])>)
    ensures
        r is Some <==> header(input@) is Some,
        r matches Some((len, rest)) ==> {
            let (hdr, n) = header(input@)->Some_0;
            2 <= hdr <= input@.len() && n == len && rest@ == input@.skip(hdr)
        },
{
    let (header, rest) = der::Header::from_der_partial(input).ok()?;
    Some((usize::try_from(header.length()).ok()?, rest))
}

/// `der::Reader::tlv_bytes` on a `der::SliceReader`: the bytes of the element
/// that the bytes start with, its header included, where all of them are there.
#[verifier::external_body]
pub(crate) fn tlv_bytes(input: &[u8]) -> (r: Option<&[u8]>)
    requires
        input@.len() > 0,
        is_universal_tag(input@[0]),
    ensures
        match (r, header(input@)) {
            (Some(bytes), Some((hdr, len))) => hdr + len <= input@.len() && bytes@ == input@.take(
                hdr + len,
            ),
            (Some(bytes), None) => false,
            (None, Some((hdr, len))) => hdr + len > input@.len(),
            (None, None) => true,
        },
{
    der::SliceReader::new(input).ok()?.tlv_bytes().ok()
}

/// The bytes that follow the header of the sequence that an encoding starts
/// with. They are not limited to the content of the sequence.
pub(crate) fn after_sequence_header(input: &[u8]) -> (r: Option<&[u8]>)
    ensures
        match r {
            Some(rest) => input@[0] == 0x30 && (header(input@) matches Some((hdr, len)) && 2 <= hdr
                <= input@.len() && rest@ == input@.skip(hdr)),
            None => header(input@) is None || input@[0] != 0x30,
        },
{
    match read_header(input) {
        Some((_, rest)) if input[0] == 0x30 => Some(rest),
        _ => None,
    }
}

/// The element that the bytes start with, and the bytes behind it.
fn read_tlv<'a>(input: &'a [u8]) -> (r: Option<(Tlv<'a>, &'a [u8])>)
    ensures
        match r {
            Some((tlv, rest)) => first_element(input@) matches Some((first, size)) && tlv@ == first
                && rest@ == input@.skip(size) && rest@.len() < input@.len(),
            None => first_element(input@) is None,
        },
{
    match read_header(input) {
        None => None,
        Some((len, rest)) => {
            let ghost hdr = header(input@)->Some_0.0;
            if len > rest.len() {
                return None;
            }
            let value: &[u8] = &rest[0..len];
            let more: &[u8] = &rest[len..rest.len()];
            proof {
                assert(value@ =~= input@.subrange(hdr, hdr + len));
                assert(more@ =~= input@.skip(hdr + len));
            }
            Some((Tlv { tag: input[0], value }, more))
        },
    }
}

/// The elements that the bytes consist of.
pub fn read_elements<'a>(input: &'a [u8]) -> (r: Option<Vec<Tlv<'a>>>)
    ensures
        match r {
            Some(list) => elements(input@) == Some(element_views(list@)),
            None => elements(input@) is None,
        },
{
    let mut list: Vec<Tlv<'a>> = Vec::new();
    let mut rest: &'a [u8] = input;
    proof {
        assert(element_views(list@) =~= Seq::<TlvView>::empty());
        if elements(rest@) is Some {
            assert(element_views(list@) + elements(rest@)->Some_0 =~= elements(rest@)->Some_0);
        }
    }
    while rest.len() > 0
        invariant
            match elements(rest@) {
                Some(more) => elements(input@) == Some(element_views(list@) + more),
                None => elements(input@) is None,
            },
        decreases rest@.len(),
    {
        match read_tlv(rest) {
            None => {
                return None;
            },
            Some((tlv, more)) => {
                let ghost before = list@;
                list.push(tlv);
                proof {
                    assert(element_views(list@) =~= element_views(before) + seq![tlv@]);
                    if elements(more@) is Some {
                        assert(element_views(before) + (seq![tlv@] + elements(more@)->Some_0)
                            =~= element_views(list@) + elements(more@)->Some_0);
                    }
                }
                rest = more;
            },
        }
    }
    assert(element_views(list@) + Seq::<TlvView>::empty() =~= element_views(list@));
    Some(list)
}

/// The content is a bit string: the number of unused bits, at most seven and
/// none where no bits follow, and the bytes of the bits.
pub open spec fn is_bit_string(value: Seq<u8>) -> bool {
    &&& 0 < value.len() <= u32::MAX
    &&& value[0] <= 7
    &&& value.len() == 1 ==> value[0] == 0
    &&& (value.len() - 1) * 8 <= usize::MAX
}

/// The bytes of a bit string, where it is made of whole bytes.
pub open spec fn whole_bytes(value: Seq<u8>) -> Option<Seq<u8>> {
    if value[0] == 0 {
        Some(value.skip(1))
    } else {
        None
    }
}

/// `der::asn1::BitStringRef`, decoded from the content of an element, and its
/// `as_bytes`.
#[verifier::external_body]
pub(crate) fn bit_string(value: &[u8]) -> (r: Option<Option<&[u8]>>)
    ensures
        r is Some <==> is_bit_string(value@),
        r matches Some(bytes) ==> match bytes {
            Some(b) => whole_bytes(value@) == Some(b@),
            None => whole_bytes(value@) is None,
        },
{
    let any = der::AnyRef::new(der::Tag::BitString, value).ok()?;
    Some(any.decode_as::<der::asn1::BitStringRef<'_>>().ok()?.as_bytes())
}

/// The content is an integer, written with no more bytes than it needs.
pub open spec fn is_integer(value: Seq<u8>) -> bool {
    &&& 0 < value.len() <= u32::MAX
    &&& value.len() > 1 && value[0] == 0x00 ==> value[1] >= 0x80
    &&& value.len() > 1 && value[0] == 0xff ==> value[1] < 0x80
}

/// `der::asn1::IntRef`: whether it can be decoded from the content of an element.
#[verifier::external_body]
pub(crate) fn integer_is_valid(value: &[u8]) -> (r: bool)
    ensures
        r == is_integer(value@),
{
    match der::AnyRef::new(der::Tag::Integer, value) {
        Ok(any) => any.decode_as::<der::asn1::IntRef<'_>>().is_ok(),
        Err(_) => false,
    }
}

/// The content is an object identifier of at most 39 bytes: a byte for the first
/// two arcs, of which the first is at most 2, and further arcs with seven bits in
/// each byte, all but the last byte of an arc from 0x80 on. An arc has at most
/// five bytes, or six where the sixth is below 0x10.
pub open spec fn is_oid(value: Seq<u8>) -> bool {
    &&& 0 < value.len() <= 39
    &&& value[0] < 120
    &&& value.len() > 1 ==> value.last() < 0x80
    &&& forall|i: int|
        6 <= i < value.len() && (forall|j: int| i - 5 <= j < i ==> #[trigger] value[j] >= 0x80)
            ==> #[trigger] value[i] < 0x10
}

/// `const_oid::ObjectIdentifier::from_bytes`: whether the content is an object
/// identifier.
#[verifier::external_body]
pub(crate) fn oid_is_valid(value: &[u8]) -> (r: bool)
    ensures
        r == is_oid(value@),
{
    const_oid::ObjectIdentifier::from_bytes(value).is_ok()
}

} // verus!
