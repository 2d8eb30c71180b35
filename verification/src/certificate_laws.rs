//! A certificate is read as the fields that are written in it.

use vstd::prelude::*;
use crate::asn1::{
    elements, header, is_bit_string, is_integer, is_oid, tag_bytes, whole_bytes, TlvView,
};
use crate::der_laws::{der, der_length, law_length_exactly};
use crate::time::{
    all_digits, generalized_time_value, two_digits, utc_time_value, DateTime, Time,
};
use crate::x509::{
    algorithm, attribute, certificate, certificate_fields, extensions, is_version, name, public_key, relative_name,
    signed_bytes, tbs, tbs_fields, time, validity, AlgorithmView, AttributeView, CertificateView,
    TbsView,
};

verus! {

/// An element is an algorithm identifier exactly where it is a sequence of the object
/// identifier and, where there are any, the parameters.
pub proof fn law_algorithm_identifier_exactly(t: TlvView, a: AlgorithmView)
    ensures
        algorithm(t) == Some(a) <==> {
            &&& t.tag == 0x30
            &&& is_oid(a.oid)
            &&& elements(t.value) == Some(
                match a.parameters {
                    None => seq![TlvView { tag: 0x06, value: a.oid }],
                    Some(p) => seq![TlvView { tag: 0x06, value: a.oid }, p],
                },
            )
        },
{
    if let Some(f) = elements(t.value) {
        if 1 <= f.len() <= 2 && f[0].tag == 0x06 {
            let id = TlvView { tag: 0x06, value: f[0].value };
            assert(f[0] == id);
            if f.len() == 1 {
                assert(f =~= seq![id]);
            } else {
                assert(f =~= seq![id, f[1]]);
            }
        }
        let id = TlvView { tag: 0x06, value: a.oid };
        if let Some(p) = a.parameters {
            if f == seq![id, p] {
                assert(f[0] == id && f[1] == p && f.len() == 2);
            }
        } else if f == seq![id] {
            assert(f[0] == id && f.len() == 1);
        }
    }
}

/// An element is an attribute exactly where it is a sequence of the object identifier
/// of its type and one element with its value.
pub proof fn law_attribute_exactly(t: TlvView, a: AttributeView)
    ensures
        attribute(t) == Some(a) <==> {
            &&& t.tag == 0x30
            &&& is_oid(a.oid)
            &&& exists|tag: u8|
                elements(t.value) == Some(
                    seq![
                        TlvView { tag: 0x06, value: a.oid },
                        #[trigger] tagged(tag, a.value),
                    ],
                )
        },
{
    let id = TlvView { tag: 0x06, value: a.oid };
    if attribute(t) == Some(a) {
        let f = elements(t.value)->Some_0;
        assert(f[0] == id && f[1] == tagged(f[1].tag, a.value));
        assert(f =~= seq![id, tagged(f[1].tag, a.value)]);
    }
    if exists|tag: u8| elements(t.value) == Some(seq![id, #[trigger] tagged(tag, a.value)]) {
        let tag = choose|tag: u8|
            elements(t.value) == Some(seq![id, #[trigger] tagged(tag, a.value)]);
        let f = elements(t.value)->Some_0;
        assert(f.len() == 2 && f[0] == id && f[1] == tagged(tag, a.value));
    }
}

/// The element with the tag and the content.
pub open spec fn tagged(tag: u8, value: Seq<u8>) -> TlvView {
    TlvView { tag, value }
}

/// An element is a relative name exactly where it is a set of its attributes, one by
/// one and all of them.
pub proof fn law_relative_name_exactly(t: TlvView, list: Seq<AttributeView>)
    ensures
        relative_name(t) == Some(list) <==> t.tag == 0x31 && (elements(t.value) matches Some(f)
            && f.len() == list.len() && forall|i: int|
            0 <= i < f.len() ==> attribute(#[trigger] f[i]) == Some(list[i])),
{
    if relative_name(t) == Some(list) {
        let f = elements(t.value)->Some_0;
        assert forall|i: int| 0 <= i < f.len() implies attribute(#[trigger] f[i]) == Some(list[i]) by {
            assert(attribute(f[i]) is Some);
        }
    }
    if t.tag == 0x31 && (elements(t.value) matches Some(f) && f.len() == list.len() && forall|i: int|
        0 <= i < f.len() ==> attribute(#[trigger] f[i]) == Some(list[i])) {
        let f = elements(t.value)->Some_0;
        assert(relative_name(t) is Some);
        assert(relative_name(t)->Some_0 =~= list);
    }
}

/// An element is a name exactly where it is a sequence of its relative names, one by
/// one and all of them.
pub proof fn law_name_exactly(t: TlvView, list: Seq<Seq<AttributeView>>)
    ensures
        name(t) == Some(list) <==> t.tag == 0x30 && (elements(t.value) matches Some(f) && f.len()
            == list.len() && forall|i: int|
            0 <= i < f.len() ==> relative_name(#[trigger] f[i]) == Some(list[i])),
{
    if name(t) == Some(list) {
        let f = elements(t.value)->Some_0;
        assert forall|i: int| 0 <= i < f.len() implies relative_name(#[trigger] f[i]) == Some(
            list[i],
        ) by {
            assert(relative_name(f[i]) is Some);
        }
    }
    if t.tag == 0x30 && (elements(t.value) matches Some(f) && f.len() == list.len() && forall|i: int|
        0 <= i < f.len() ==> relative_name(#[trigger] f[i]) == Some(list[i])) {
        let f = elements(t.value)->Some_0;
        assert(name(t) is Some);
        assert(name(t)->Some_0 =~= list);
    }
}

/// A number below 100, written with two digits.
pub open spec fn digits(n: int) -> Seq<u8> {
    seq![(0x30 + n / 10) as u8, (0x30 + n % 10) as u8]
}

/// Month, day, hour, minutes and seconds, and a Z.
pub open spec fn date_text(dt: DateTime) -> Seq<u8> {
    digits(dt.month as int) + digits(dt.day as int) + digits(dt.hour as int) + digits(
        dt.minutes as int,
    ) + digits(dt.seconds as int) + seq![0x5au8]
}

/// The date and the time of day are written at `i`.
spec fn date_is_at(value: Seq<u8>, i: int, dt: DateTime) -> bool {
    value.subrange(i, i + 11) == date_text(dt)
}

/// Two digits write a number exactly where it is written there.
proof fn lemma_digits(value: Seq<u8>, i: int, n: int)
    requires
        0 <= i < i + 2 <= value.len(),
        0 <= n < 100,
    ensures
        value[i] == digits(n)[0] && value[i + 1] == digits(n)[1] <==> 0x30 <= value[i] <= 0x39 && 0x30
            <= value[i + 1] <= 0x39 && two_digits(value, i) == n,
        0x30 <= digits(n)[0] <= 0x39,
        0x30 <= digits(n)[1] <= 0x39,
{
}

/// A date is read from its digits exactly where it is written in them.
#[verifier::rlimit(60)]
proof fn lemma_date(value: Seq<u8>, i: int, dt: DateTime)
    requires
        0 <= i,
        value.len() == i + 11,
        dt.valid(),
    ensures
        date_is_at(value, i, dt) <==> {
            &&& forall|j: int| i <= j < i + 10 ==> 0x30 <= #[trigger] value[j] <= 0x39
            &&& value[i + 10] == 0x5a
            &&& two_digits(value, i) == dt.month
            &&& two_digits(value, i + 2) == dt.day
            &&& two_digits(value, i + 4) == dt.hour
            &&& two_digits(value, i + 6) == dt.minutes
            &&& two_digits(value, i + 8) == dt.seconds
        },
{
    let text = date_text(dt);
    let part = value.subrange(i, i + 11);
    lemma_digits(value, i, dt.month as int);
    lemma_digits(value, i + 2, dt.day as int);
    lemma_digits(value, i + 4, dt.hour as int);
    lemma_digits(value, i + 6, dt.minutes as int);
    lemma_digits(value, i + 8, dt.seconds as int);
    assert(text.len() == 11);
    assert(text[0] == digits(dt.month as int)[0] && text[1] == digits(dt.month as int)[1]);
    assert(text[2] == digits(dt.day as int)[0] && text[3] == digits(dt.day as int)[1]);
    assert(text[4] == digits(dt.hour as int)[0] && text[5] == digits(dt.hour as int)[1]);
    assert(text[6] == digits(dt.minutes as int)[0] && text[7] == digits(dt.minutes as int)[1]);
    assert(text[8] == digits(dt.seconds as int)[0] && text[9] == digits(dt.seconds as int)[1]);
    assert(text[10] == 0x5a);
    assert(forall|j: int| 0 <= j < 11 ==> #[trigger] part[j] == value[i + j]);
    if part == text {
        assert forall|j: int| 0 <= j < 11 implies value[i + j] == #[trigger] text[j] by {
            assert(part[j] == text[j]);
        }
        assert forall|j: int| i <= j < i + 10 implies 0x30 <= #[trigger] value[j] <= 0x39 by {
            assert(value[i + (j - i)] == text[j - i]);
        }
        assert(value[i + 0] == text[0] && value[i + 1] == text[1] && value[i + 2] == text[2]);
        assert(value[i + 3] == text[3] && value[i + 4] == text[4] && value[i + 5] == text[5]);
        assert(value[i + 6] == text[6] && value[i + 7] == text[7] && value[i + 8] == text[8]);
        assert(value[i + 9] == text[9] && value[i + 10] == text[10]);
    }
    if (forall|j: int| i <= j < i + 10 ==> 0x30 <= #[trigger] value[j] <= 0x39) && value[i + 10]
        == 0x5a && two_digits(value, i) == dt.month && two_digits(value, i + 2) == dt.day
        && two_digits(value, i + 4) == dt.hour && two_digits(value, i + 6) == dt.minutes
        && two_digits(value, i + 8) == dt.seconds {
        assert(0x30 <= value[i + 0] <= 0x39 && 0x30 <= value[i + 1] <= 0x39);
        assert(0x30 <= value[i + 2] <= 0x39 && 0x30 <= value[i + 3] <= 0x39);
        assert(0x30 <= value[i + 4] <= 0x39 && 0x30 <= value[i + 5] <= 0x39);
        assert(0x30 <= value[i + 6] <= 0x39 && 0x30 <= value[i + 7] <= 0x39);
        assert(0x30 <= value[i + 8] <= 0x39 && 0x30 <= value[i + 9] <= 0x39);
        assert(part =~= text);
    }
}

/// A `UTCTime` that is read was written.
#[verifier::rlimit(40)]
proof fn lemma_utc_time_was_written(value: Seq<u8>, dt: DateTime)
    requires
        utc_time_value(value) == Some(dt),
    ensures
        dt.valid(),
        dt.year <= 2049,
        value == digits(dt.year as int % 100) + date_text(dt),
{
    let year = digits(dt.year as int % 100);
    let text = year + date_text(dt);
    lemma_all_digits(value, 12);
    assert(0x30 <= value[0] <= 0x39 && 0x30 <= value[1] <= 0x39);
    assert(two_digits(value, 0) == dt.year as int % 100);
    lemma_date(value, 2, dt);
    assert(0x30 <= value[2] <= 0x39 && 0x30 <= value[3] <= 0x39 && 0x30 <= value[4] <= 0x39);
    assert(0x30 <= value[5] <= 0x39 && 0x30 <= value[6] <= 0x39 && 0x30 <= value[7] <= 0x39);
    assert(0x30 <= value[8] <= 0x39 && 0x30 <= value[9] <= 0x39 && 0x30 <= value[10] <= 0x39);
    assert(0x30 <= value[11] <= 0x39);
    assert(date_is_at(value, 2, dt));
    lemma_digits(value, 0, dt.year as int % 100);
    assert(text.len() == 13);
    assert forall|j: int| 0 <= j < 13 implies value[j] == text[j] by {
        if j >= 2 {
            assert(value.subrange(2, 13)[j - 2] == date_text(dt)[j - 2]);
        }
    }
    assert(value =~= text);
}

/// A `UTCTime` that is written is read.
#[verifier::rlimit(40)]
proof fn lemma_written_utc_time(value: Seq<u8>, dt: DateTime)
    requires
        dt.valid(),
        dt.year <= 2049,
        value == digits(dt.year as int % 100) + date_text(dt),
    ensures
        utc_time_value(value) == Some(dt),
{
    let year = digits(dt.year as int % 100);
    assert(date_text(dt).len() == 11);
    lemma_date(value, 2, dt);
    lemma_digits(value, 0, dt.year as int % 100);
    assert(value[0] == year[0] && value[1] == year[1]);
    assert(value.subrange(2, 13) =~= date_text(dt));
    assert forall|j: int| 0 <= j < 12 implies 0x30 <= #[trigger] value.take(12)[j] <= 0x39 by {
        assert(value.take(12)[j] == value[j]);
    }
    assert(two_digits(value, 0) == dt.year as int % 100);
}

/// A `UTCTime` is read exactly where it is written: a date that exists, from 1970 to
/// 2049, with the last two digits of its year.
pub proof fn law_utc_time_exactly(value: Seq<u8>, dt: DateTime)
    ensures
        utc_time_value(value) == Some(dt) <==> dt.valid() && dt.year <= 2049 && value == digits(
            dt.year as int % 100,
        ) + date_text(dt),
{
    if utc_time_value(value) == Some(dt) {
        lemma_utc_time_was_written(value, dt);
    } else if dt.valid() && dt.year <= 2049 && value == digits(dt.year as int % 100) + date_text(dt) {
        lemma_written_utc_time(value, dt);
    }
}

/// A `GeneralizedTime` is read exactly where it is written: a date that exists, from
/// 1970 on, with all four digits of its year.
#[verifier::rlimit(40)]
pub proof fn law_generalized_time_exactly(value: Seq<u8>, dt: DateTime)
    ensures
        generalized_time_value(value) == Some(dt) <==> dt.valid() && value == digits(
            dt.year as int / 100,
        ) + digits(dt.year as int % 100) + date_text(dt),
{
    let high = digits(dt.year as int / 100);
    let low = digits(dt.year as int % 100);
    let text = high + low + date_text(dt);
    if value.len() == 15 && dt.valid() {
        lemma_date(value, 4, dt);
        lemma_digits(value, 0, dt.year as int / 100);
        lemma_digits(value, 2, dt.year as int % 100);
        assert(text.len() == 15);
        if value == text {
            assert(value[0] == high[0] && value[1] == high[1]);
            assert(value[2] == low[0] && value[3] == low[1]);
            assert(value.subrange(4, 15) =~= date_text(dt));
            assert forall|j: int| 0 <= j < 14 implies 0x30 <= #[trigger] value.take(14)[j] <= 0x39 by {
                assert(value.take(14)[j] == value[j]);
            }
        }
        if generalized_time_value(value) == Some(dt) {
            lemma_all_digits(value, 14);
            assert(date_is_at(value, 4, dt));
            assert forall|j: int| 0 <= j < 15 implies value[j] == text[j] by {
                if j >= 4 {
                    assert(value.subrange(4, 15)[j - 4] == date_text(dt)[j - 4]);
                }
            }
            assert(value =~= text);
        }
    }
    if dt.valid() && value == text {
        assert(date_text(dt).len() == 11);
    }
}

/// Digits are digits wherever they are looked at.
proof fn lemma_all_digits(value: Seq<u8>, n: int)
    requires
        0 <= n <= value.len(),
        all_digits(value.take(n)),
    ensures
        forall|j: int| 0 <= j < n ==> 0x30 <= #[trigger] value[j] <= 0x39,
{
    assert forall|j: int| 0 <= j < n implies 0x30 <= #[trigger] value[j] <= 0x39 by {
        assert(value.take(n)[j] == value[j]);
    }
}

/// An element is a time exactly where it is a `UTCTime` or a `GeneralizedTime`.
pub proof fn law_time_exactly(t: TlvView, dt: DateTime)
    ensures
        time(t) == Some(Time::UtcTime(dt)) <==> t.tag == 0x17 && dt.valid() && dt.year <= 2049
            && t.value == digits(dt.year as int % 100) + date_text(dt),
        time(t) == Some(Time::GeneralTime(dt)) <==> t.tag == 0x18 && dt.valid() && t.value == digits(
            dt.year as int / 100,
        ) + digits(dt.year as int % 100) + date_text(dt),
{
    law_utc_time_exactly(t.value, dt);
    law_generalized_time_exactly(t.value, dt);
}

/// An element is a period exactly where it is a sequence of two times, the first of
/// which starts it and the second ends it.
pub proof fn law_validity_exactly(t: TlvView, not_before: Time, not_after: Time)
    ensures
        validity(t) == Some((not_before, not_after)) <==> t.tag == 0x30 && exists|
            first: TlvView,
            second: TlvView,
        |
            elements(t.value) == Some(#[trigger] seq![first, second]) && time(first) == Some(
                not_before,
            ) && time(second) == Some(not_after),
{
    if validity(t) == Some((not_before, not_after)) {
        let f = elements(t.value)->Some_0;
        assert(f =~= seq![f[0], f[1]]);
    }
    if t.tag == 0x30 && exists|first: TlvView, second: TlvView|
        elements(t.value) == Some(#[trigger] seq![first, second]) && time(first) == Some(not_before)
            && time(second) == Some(not_after) {
        let (first, second) = choose|first: TlvView, second: TlvView|
            elements(t.value) == Some(#[trigger] seq![first, second]) && time(first) == Some(
                not_before,
            ) && time(second) == Some(not_after);
        let f = elements(t.value)->Some_0;
        assert(f.len() == 2 && f[0] == first && f[1] == second);
    }
}

/// The bits are those of the bytes, with no bits left over; or they are not made of
/// whole bytes, where there are none.
pub open spec fn are_bits_of(bits: Seq<u8>, bytes: Option<Seq<u8>>) -> bool {
    is_bit_string(bits) && match bytes {
        Some(b) => bits == seq![0u8] + b,
        None => 1 <= bits[0] <= 7,
    }
}

proof fn lemma_bits(bits: Seq<u8>, bytes: Option<Seq<u8>>)
    ensures
        is_bit_string(bits) && whole_bytes(bits) == bytes <==> are_bits_of(bits, bytes),
{
    if is_bit_string(bits) {
        if bits[0] == 0 {
            assert(bits =~= seq![0u8] + bits.skip(1));
        }
        if let Some(b) = bytes {
            if bits == seq![0u8] + b {
                assert(bits[0] == 0);
                assert(bits.skip(1) =~= b);
            }
        }
    }
}

/// Bit strings are read exactly where they are written: a count of unused bits from 0
/// to 7, which is 0 where no bytes follow, and the bytes. Only those without unused
/// bits are made of whole bytes.
pub proof fn law_bit_strings_exactly(unused: u8, bytes: Seq<u8>)
    requires
        bytes.len() * 8 <= usize::MAX,
        bytes.len() < u32::MAX,
    ensures
        is_bit_string(seq![unused] + bytes) <==> unused <= 7 && (bytes.len() == 0 ==> unused == 0),
        whole_bytes(seq![0u8] + bytes) == Some(bytes),
        unused > 0 ==> whole_bytes(seq![unused] + bytes) is None,
        !is_bit_string(Seq::<u8>::empty()),
{
    let value = seq![unused] + bytes;
    assert(value[0] == unused && value.len() == 1 + bytes.len());
    assert((seq![0u8] + bytes).skip(1) =~= bytes);
}

/// Integers are written with no more bytes than they need: a first byte of zeros or of
/// ones only is there for the sign of what follows it.
pub proof fn law_integers_are_shortest(first: u8, bytes: Seq<u8>)
    requires
        bytes.len() < u32::MAX,
    ensures
        is_integer(seq![first] + bytes) <==> (bytes.len() > 0 ==> !(first == 0x00 && bytes[0] < 0x80)
            && !(first == 0xff && bytes[0] >= 0x80)),
        !is_integer(Seq::<u8>::empty()),
{
    let value = seq![first] + bytes;
    assert(value[0] == first && value.len() == 1 + bytes.len());
    if bytes.len() > 0 {
        assert(value[1] == bytes[0]);
    }
}

/// An element holds a public key exactly where it is a sequence of an algorithm
/// identifier and a bit string with the key.
pub proof fn law_public_key_exactly(t: TlvView, key: Option<Seq<u8>>)
    ensures
        public_key(t) == Some(key) <==> t.tag == 0x30 && exists|id: TlvView, bits: Seq<u8>|
            elements(t.value) == Some(seq![id, #[trigger] tagged(0x03, bits)]) && #[trigger] algorithm(
                id,
            ) is Some && are_bits_of(bits, key),
{
    if public_key(t) == Some(key) {
        let f = elements(t.value)->Some_0;
        lemma_bits(f[1].value, key);
        assert(f[1] == tagged(0x03, f[1].value));
        assert(f =~= seq![f[0], tagged(0x03, f[1].value)]);
        assert(algorithm(f[0]) is Some);
    }
    if t.tag == 0x30 && exists|id: TlvView, bits: Seq<u8>|
        elements(t.value) == Some(seq![id, #[trigger] tagged(0x03, bits)]) && #[trigger] algorithm(
            id,
        ) is Some && are_bits_of(bits, key) {
        let (id, bits) = choose|id: TlvView, bits: Seq<u8>|
            elements(t.value) == Some(seq![id, #[trigger] tagged(0x03, bits)])
                && #[trigger] algorithm(id) is Some && are_bits_of(bits, key);
        let f = elements(t.value)->Some_0;
        lemma_bits(bits, key);
        assert(f.len() == 2 && f[0] == id && f[1] == tagged(0x03, bits));
    }
}

/// An element is a version exactly where it holds one of the numbers 0, 1 and 2.
pub proof fn law_version_exactly(t: TlvView)
    ensures
        is_version(t) <==> t.tag == 0xa0 && exists|v: u8|
            v <= 2 && elements(t.value) == Some(seq![#[trigger] tagged(0x02, seq![v])]),
{
    if is_version(t) {
        let f = elements(t.value)->Some_0;
        let v = f[0].value[0];
        assert(f[0].value =~= seq![v]);
        assert(f =~= seq![tagged(0x02, seq![v])]);
    }
    if t.tag == 0xa0 && exists|v: u8|
        v <= 2 && elements(t.value) == Some(seq![#[trigger] tagged(0x02, seq![v])]) {
        let v = choose|v: u8|
            v <= 2 && elements(t.value) == Some(seq![#[trigger] tagged(0x02, seq![v])]);
        let f = elements(t.value)->Some_0;
        assert(f.len() == 1 && f[0] == tagged(0x02, seq![v]));
    }
}

/// An element holds extensions exactly where it holds one element, whose content they
/// are.
pub proof fn law_extensions_exactly(t: TlvView, bytes: Seq<u8>)
    ensures
        extensions(t) == Some(bytes) <==> t.tag == 0xa3 && exists|tag: u8|
            elements(t.value) == Some(seq![#[trigger] tagged(tag, bytes)]),
{
    if extensions(t) == Some(bytes) {
        let f = elements(t.value)->Some_0;
        assert(f =~= seq![tagged(f[0].tag, bytes)]);
    }
    if t.tag == 0xa3 && exists|tag: u8|
        elements(t.value) == Some(seq![#[trigger] tagged(tag, bytes)]) {
        let tag = choose|tag: u8| elements(t.value) == Some(seq![#[trigger] tagged(tag, bytes)]);
        let f = elements(t.value)->Some_0;
        assert(f.len() == 1 && f[0] == tagged(tag, bytes));
    }
}

/// The elements of the signed part of a certificate.
pub struct TbsParts {
    pub version: Option<TlvView>,
    pub serial: TlvView,
    pub algorithm: TlvView,
    pub issuer: TlvView,
    pub validity: TlvView,
    pub subject: TlvView,
    pub public_key: TlvView,
    pub extensions: Option<TlvView>,
}

/// The elements of the signed part, in their order. The version comes first and the
/// extensions last, where there are any.
pub open spec fn in_order(p: TbsParts) -> Seq<TlvView> {
    let fields = seq![p.serial, p.algorithm, p.issuer, p.validity, p.subject, p.public_key];
    let with_version = match p.version {
        Some(v) => seq![v] + fields,
        None => fields,
    };
    match p.extensions {
        Some(e) => with_version.push(e),
        None => with_version,
    }
}

/// The elements are those of the signed part: each can be read, and the subject, the
/// period, the public key and the extensions are what is read from theirs.
pub open spec fn are_parts_of(p: TbsParts, v: TbsView) -> bool {
    &&& p.version matches Some(e) ==> is_version(e)
    &&& p.serial.tag == 0x02 && is_integer(p.serial.value)
    &&& algorithm(p.algorithm) is Some
    &&& name(p.issuer) is Some
    &&& validity(p.validity) == Some((v.not_before, v.not_after))
    &&& name(p.subject) == Some(v.subject)
    &&& public_key(p.public_key) == Some(v.public_key)
    &&& match p.extensions {
        Some(e) => v.extensions is Some && extensions(e) == v.extensions,
        None => v.extensions is None,
    }
}

/// The parts that a list of elements has, from position `k` on.
spec fn parts_at(f: Seq<TlvView>, k: int) -> TbsParts {
    TbsParts {
        version: if k == 1 {
            Some(f[0])
        } else {
            None
        },
        serial: f[k],
        algorithm: f[k + 1],
        issuer: f[k + 2],
        validity: f[k + 3],
        subject: f[k + 4],
        public_key: f[k + 5],
        extensions: if f.len() == k + 7 {
            Some(f[k + 6])
        } else {
            None
        },
    }
}

/// The fields of the signed part are read from the elements at their places.
#[verifier::rlimit(40)]
proof fn lemma_tbs_fields(f: Seq<TlvView>, k: int, v: TbsView)
    requires
        0 <= k <= 1,
        k + 6 <= f.len() <= k + 7,
        k == 1 ==> is_version(f[0]),
    ensures
        tbs_fields(f.skip(k)) == Some(v) <==> are_parts_of(parts_at(f, k), v),
{
    let g = f.skip(k);
    assert(g[0] == f[k] && g[1] == f[k + 1] && g[2] == f[k + 2] && g[3] == f[k + 3]);
    assert(g[4] == f[k + 4] && g[5] == f[k + 5]);
    if f.len() == k + 7 {
        assert(g[6] == f[k + 6]);
    }
}

/// An element is the signed part of a certificate exactly where it is a sequence of
/// its elements, in their order and with nothing else.
#[verifier::rlimit(60)]
pub proof fn law_signed_part_exactly(t: TlvView, v: TbsView)
    ensures
        tbs(t) == Some(v) <==> t.tag == 0x30 && exists|p: TbsParts| #[trigger]
            are_parts_of(p, v) && elements(t.value) == Some(in_order(p)),
{
    if tbs(t) == Some(v) {
        let f = elements(t.value)->Some_0;
        let k: int = if f.len() > 0 && f[0].tag == 0xa0 {
            1
        } else {
            0
        };
        assert(f.skip(0) =~= f);
        assert(tbs_fields(f.skip(k)) == Some(v));
        assert(f.skip(k).len() == f.len() - k);
        lemma_tbs_fields(f, k, v);
        let p = parts_at(f, k);
        assert(are_parts_of(p, v));
        assert(in_order(p) =~= f);
    }
    if t.tag == 0x30 && exists|p: TbsParts| #[trigger]
        are_parts_of(p, v) && elements(t.value) == Some(in_order(p)) {
        let p = choose|p: TbsParts| #[trigger]
            are_parts_of(p, v) && elements(t.value) == Some(in_order(p));
        let f = elements(t.value)->Some_0;
        let k: int = if p.version is Some {
            1
        } else {
            0
        };
        lemma_in_order(p);
        assert(f.skip(0) =~= f);
        lemma_tbs_fields(f, k, v);
    }
}

/// The elements of the signed part stand at their places.
proof fn lemma_in_order(p: TbsParts)
    ensures
        ({
            let k: int = if p.version is Some {
                1
            } else {
                0
            };
            let f = in_order(p);
            &&& f.len() == k + 6 + if p.extensions is Some {
                1int
            } else {
                0int
            }
            &&& parts_at(f, k) == p
        }),
{
}

/// The elements of a certificate: one sequence, of the signed part, an algorithm
/// identifier and a bit string.
pub struct CertificateParts {
    pub body: Seq<u8>,
    pub signed: TlvView,
    pub algorithm: TlvView,
    pub bits: Seq<u8>,
}

/// The elements are those of the certificate.
pub open spec fn are_certificate_parts(p: CertificateParts, c: CertificateView) -> bool {
    &&& elements(p.body) == Some(seq![p.signed, p.algorithm, tagged(0x03, p.bits)])
    &&& tbs(p.signed) == Some(c.tbs)
    &&& algorithm(p.algorithm) == Some(c.signature_algorithm)
    &&& are_bits_of(p.bits, c.signature)
}

/// Three elements are those of a certificate.
#[verifier::rlimit(40)]
proof fn lemma_certificate_fields(f: Seq<TlvView>, c: CertificateView)
    ensures
        certificate_fields(f) == Some(c) <==> f.len() == 3 && f[2].tag == 0x03 && tbs(f[0]) == Some(
            c.tbs,
        ) && algorithm(f[1]) == Some(c.signature_algorithm) && are_bits_of(f[2].value, c.signature),
{
    if f.len() == 3 {
        lemma_bits(f[2].value, c.signature);
    }
}

proof fn lemma_one(f: Seq<TlvView>, a: TlvView)
    ensures
        f == seq![a] <==> f.len() == 1 && f[0] == a,
{
    if f.len() == 1 && f[0] == a {
        assert(f =~= seq![a]);
    }
}

proof fn lemma_three(f: Seq<TlvView>, a: TlvView, b: TlvView, c: TlvView)
    ensures
        f == seq![a, b, c] <==> f.len() == 3 && f[0] == a && f[1] == b && f[2] == c,
{
    if f.len() == 3 && f[0] == a && f[1] == b && f[2] == c {
        assert(f =~= seq![a, b, c]);
    }
}

/// The parts of a certificate that was read.
#[verifier::rlimit(60)]
proof fn lemma_read_parts(input: Seq<u8>, c: CertificateView) -> (p: CertificateParts)
    requires
        certificate(input) == Some(c),
    ensures
        are_certificate_parts(p, c),
        elements(input) == Some(seq![tagged(0x30, p.body)]),
{
    let outer = elements(input)->Some_0;
    let body = outer[0].value;
    let f = elements(body)->Some_0;
    lemma_certificate_fields(f, c);
    let p = CertificateParts { body, signed: f[0], algorithm: f[1], bits: f[2].value };
    lemma_one(outer, tagged(0x30, body));
    lemma_three(f, p.signed, p.algorithm, tagged(0x03, p.bits));
    p
}

/// A certificate is read from its parts.
#[verifier::rlimit(60)]
proof fn lemma_written_parts(input: Seq<u8>, c: CertificateView, p: CertificateParts)
    requires
        are_certificate_parts(p, c),
        elements(input) == Some(seq![tagged(0x30, p.body)]),
    ensures
        certificate(input) == Some(c),
{
    let outer = elements(input)->Some_0;
    let f = elements(p.body)->Some_0;
    lemma_one(outer, tagged(0x30, p.body));
    lemma_three(f, p.signed, p.algorithm, tagged(0x03, p.bits));
    lemma_certificate_fields(f, c);
}

/// The bytes hold the elements of the certificate, and nothing else.
pub open spec fn holds_parts(input: Seq<u8>, p: CertificateParts, c: CertificateView) -> bool {
    are_certificate_parts(p, c) && elements(input) == Some(seq![tagged(0x30, p.body)])
}

/// The bytes are a certificate exactly where they are one sequence of the signed
/// part, an algorithm identifier and a bit string with the signature.
pub proof fn law_certificate_exactly(input: Seq<u8>, c: CertificateView)
    ensures
        certificate(input) == Some(c) <==> exists|p: CertificateParts| #[trigger]
            holds_parts(input, p, c),
{
    if certificate(input) == Some(c) {
        let p = lemma_read_parts(input, c);
        assert(holds_parts(input, p, c));
    } else if exists|p: CertificateParts| #[trigger] holds_parts(input, p, c) {
        let p = choose|p: CertificateParts| #[trigger] holds_parts(input, p, c);
        lemma_written_parts(input, c, p);
    }
}

/// The signed bytes are found exactly where they are written: a sequence, with its
/// tag and its length, right behind the tag and the length of the outer sequence.
/// What that length is, and what follows, does not matter.
#[verifier::rlimit(40)]
pub proof fn law_signed_bytes_exactly(input: Seq<u8>, bytes: Seq<u8>)
    requires
        input.len() <= u32::MAX,
    ensures
        signed_bytes(input) == Some(bytes) <==> exists|n: int, content: Seq<u8>, behind: Seq<u8>|
            0 <= n <= u32::MAX && bytes == der(tagged(0x30, content)) && input == #[trigger] (
            seq![0x30u8] + der_length(n) + der(tagged(0x30, content)) + behind),
{
    if signed_bytes(input) == Some(bytes) {
        let (outer, n) = header(input)->Some_0;
        let rest = input.skip(outer);
        let (hdr, len) = header(rest)->Some_0;
        let content = rest.subrange(hdr, hdr + len);
        let behind = rest.skip(hdr + len);
        assert(tag_bytes(input) == Some(1int) && tag_bytes(rest) == Some(1int));
        law_length_exactly(input, 1, outer - 1, n);
        law_length_exactly(rest, 1, hdr - 1, len);
        assert(bytes =~= der(tagged(0x30, content)));
        assert(input =~= seq![0x30u8] + der_length(n) + der(tagged(0x30, content)) + behind);
    }
    if exists|n: int, content: Seq<u8>, behind: Seq<u8>|
        0 <= n <= u32::MAX && bytes == der(tagged(0x30, content)) && input == #[trigger] (
        seq![0x30u8] + der_length(n) + der(tagged(0x30, content)) + behind) {
        let (n, content, behind) = choose|n: int, content: Seq<u8>, behind: Seq<u8>|
            0 <= n <= u32::MAX && bytes == der(tagged(0x30, content)) && input == #[trigger] (
            seq![0x30u8] + der_length(n) + der(tagged(0x30, content)) + behind);
        let octets = der_length(n).len() as int;
        let rest = input.skip(1 + octets);
        let len = content.len() as int;
        let inner = der_length(len).len() as int;
        assert(input[0] == 0x30);
        assert(input.subrange(1, 1 + octets) =~= der_length(n));
        law_length_exactly(input, 1, octets, n);
        assert(rest =~= bytes + behind);
        assert(rest[0] == 0x30);
        assert(rest.subrange(1, 1 + inner) =~= der_length(len));
        law_length_exactly(rest, 1, inner, len);
        assert(rest.take(1 + inner + len) =~= bytes);
    }
}

} // verus!
