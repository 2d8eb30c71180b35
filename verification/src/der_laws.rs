//! What is written in the Distinguished Encoding Rules is what is read.

use vstd::prelude::*;
use crate::asn1::{big_endian, elements, first_element, header, length_at, tag_bytes, TlvView};

verus! {

/// The tag is one byte: a universal type that DER knows, or a number below 31 of
/// another class.
pub open spec fn is_simple_tag(tag: u8) -> bool {
    ||| tag >= 0x40 && tag % 0x20 < 0x1f
    ||| 1 <= tag <= 6
    ||| 9 <= tag <= 10
    ||| 12 <= tag <= 13
    ||| 18 <= tag <= 24
    ||| 26 <= tag <= 27
    ||| tag == 30
    ||| tag == 0x30
    ||| tag == 0x31
}

/// A length below 2^32, in the only form that is allowed for it.
pub open spec fn der_length(n: int) -> Seq<u8> {
    if n < 0x80 {
        seq![n as u8]
    } else if n < 0x100 {
        seq![0x81u8, n as u8]
    } else if n < 0x10000 {
        seq![0x82u8, (n / 0x100) as u8, (n % 0x100) as u8]
    } else if n < 0x1000000 {
        seq![0x83u8, (n / 0x10000) as u8, (n / 0x100 % 0x100) as u8, (n % 0x100) as u8]
    } else {
        seq![
            0x84u8,
            (n / 0x1000000) as u8,
            (n / 0x10000 % 0x100) as u8,
            (n / 0x100 % 0x100) as u8,
            (n % 0x100) as u8,
        ]
    }
}

/// An element with a tag of one byte.
pub open spec fn der(t: TlvView) -> Seq<u8> {
    seq![t.tag] + der_length(t.value.len() as int) + t.value
}

/// Elements, one behind the other.
pub open spec fn der_all(list: Seq<TlvView>) -> Seq<u8>
    decreases list.len(),
{
    if list.len() == 0 {
        seq![]
    } else {
        der(list[0]) + der_all(list.skip(1))
    }
}

/// All tags in the list are of one byte.
pub open spec fn simple_tags(list: Seq<TlvView>) -> bool {
    forall|i: int| 0 <= i < list.len() ==> is_simple_tag((#[trigger] list[i]).tag)
}

proof fn lemma_big_endian_push(bytes: Seq<u8>, b: u8)
    ensures
        big_endian(bytes.push(b)) == big_endian(bytes) * 0x100 + b,
{
    assert(bytes.push(b).drop_last() =~= bytes);
}

/// The number that up to four bytes write.
proof fn lemma_big_endian(bytes: Seq<u8>)
    requires
        1 <= bytes.len() <= 4,
    ensures
        bytes.len() == 1 ==> big_endian(bytes) == bytes[0],
        bytes.len() == 2 ==> big_endian(bytes) == bytes[0] * 0x100 + bytes[1],
        bytes.len() == 3 ==> big_endian(bytes) == bytes[0] * 0x10000 + bytes[1] * 0x100 + bytes[2],
        bytes.len() == 4 ==> big_endian(bytes) == bytes[0] * 0x1000000 + bytes[1] * 0x10000
            + bytes[2] * 0x100 + bytes[3],
    decreases bytes.len(),
{
    let front = bytes.drop_last();
    assert(front.push(bytes.last()) =~= bytes);
    lemma_big_endian_push(front, bytes.last());
    if front.len() > 0 {
        lemma_big_endian(front);
    } else {
        assert(big_endian(front) == 0);
    }
}

/// A length that is read was written.
#[verifier::rlimit(40)]
proof fn lemma_read_length(input: Seq<u8>, at: int, octets: int, n: int)
    requires
        0 <= at,
        length_at(input, at) == Some((octets, n)),
    ensures
        0 <= n <= u32::MAX,
        octets == der_length(n).len(),
        at + octets <= input.len(),
        input.subrange(at, at + octets) == der_length(n),
{
    let read = input.subrange(at, at + octets);
    if input[at] >= 0x80 {
        let count = input[at] - 0x80;
        let bytes = input.subrange(at + 1, at + 1 + count);
        lemma_big_endian(bytes);
        assert(read[1] == bytes[0]);
        if count == 1 {
            assert(der_length(n) == seq![0x81u8, bytes[0]]);
        } else if count == 2 {
            assert(read[2] == bytes[1]);
            assert(n / 0x100 == bytes[0] && n % 0x100 == bytes[1]);
            assert(der_length(n) == seq![0x82u8, bytes[0], bytes[1]]);
        } else if count == 3 {
            assert(read[2] == bytes[1] && read[3] == bytes[2]);
            assert(n / 0x10000 == bytes[0] && n / 0x100 % 0x100 == bytes[1] && n % 0x100 == bytes[2]);
            assert(der_length(n) == seq![0x83u8, bytes[0], bytes[1], bytes[2]]);
        } else {
            assert(read[2] == bytes[1] && read[3] == bytes[2] && read[4] == bytes[3]);
            assert(n / 0x1000000 == bytes[0] && n / 0x10000 % 0x100 == bytes[1]);
            assert(n / 0x100 % 0x100 == bytes[2] && n % 0x100 == bytes[3]);
            assert(der_length(n) == seq![0x84u8, bytes[0], bytes[1], bytes[2], bytes[3]]);
        }
    }
    assert(read =~= der_length(n));
}

/// A length that is written is read.
#[verifier::rlimit(40)]
proof fn lemma_written_length(input: Seq<u8>, at: int, n: int)
    requires
        0 <= at,
        0 <= n <= u32::MAX,
        at + der_length(n).len() <= input.len(),
        input.subrange(at, at + der_length(n).len()) == der_length(n),
    ensures
        length_at(input, at) == Some((der_length(n).len() as int, n)),
{
    let written = der_length(n);
    let octets = written.len() as int;
    assert forall|i: int| 0 <= i < octets implies #[trigger] input[at + i] == written[i] by {
        assert(input.subrange(at, at + octets)[i] == written[i]);
    }
    assert(input[at + 0] == written[0]);
    if n >= 0x80 {
        let count = octets - 1;
        let bytes = input.subrange(at + 1, at + 1 + count);
        assert(bytes[0] == input[at + 1]);
        lemma_big_endian(bytes);
        if n < 0x100 {
            assert(big_endian(bytes) == n);
        } else if n < 0x10000 {
            assert(bytes[1] == input[at + 2]);
            assert(big_endian(bytes) == n);
        } else if n < 0x1000000 {
            assert(bytes[1] == input[at + 2] && bytes[2] == input[at + 3]);
            assert(n == (n / 0x10000) * 0x10000 + (n / 0x100 % 0x100) * 0x100 + n % 0x100);
            assert(big_endian(bytes) == n);
        } else {
            assert(bytes[1] == input[at + 2] && bytes[2] == input[at + 3] && bytes[3] == input[at
                + 4]);
            assert(n == (n / 0x1000000) * 0x1000000 + (n / 0x10000 % 0x100) * 0x10000 + (n / 0x100
                % 0x100) * 0x100 + n % 0x100);
            assert(big_endian(bytes) == n);
        }
    }
}

/// A length reads back exactly where it is written in its only form.
pub proof fn law_length_exactly(input: Seq<u8>, at: int, octets: int, n: int)
    requires
        0 <= at,
    ensures
        length_at(input, at) == Some((octets, n)) <==> 0 <= n <= u32::MAX && octets == der_length(
            n,
        ).len() && at + octets <= input.len() && input.subrange(at, at + octets) == der_length(n),
{
    if length_at(input, at) == Some((octets, n)) {
        lemma_read_length(input, at, octets, n);
    } else if 0 <= n <= u32::MAX && octets == der_length(n).len() && at + octets <= input.len()
        && input.subrange(at, at + octets) == der_length(n) {
        lemma_written_length(input, at, n);
    }
}

/// A first byte below 0x40 that is no universal type starts nothing.
pub proof fn law_unknown_tags_start_nothing(input: Seq<u8>)
    requires
        input.len() > 0,
        input[0] < 0x40,
        !is_simple_tag(input[0]),
    ensures
        first_element(input) is None,
        elements(input) is None,
{
}

/// An element reads back exactly where it is written: for a tag of one byte, the
/// bytes start with the element `t` of `size` bytes if and only if these bytes are
/// its tag, its length and its content.
pub proof fn law_element_exactly(input: Seq<u8>, t: TlvView, size: int)
    requires
        input.len() > 0,
        is_simple_tag(input[0]),
        input.len() <= u32::MAX,
    ensures
        first_element(input) == Some((t, size)) <==> 0 <= size <= input.len() && input.take(size)
            == der(t),
{
    let tag = input[0];
    assert(tag_bytes(input) == Some(1int));
    if first_element(input) == Some((t, size)) {
        let (hdr, len) = header(input)->Some_0;
        law_length_exactly(input, 1, hdr - 1, len);
        assert(t.value.len() == len);
        assert(input.take(size) =~= der(t));
    }
    if 0 <= size <= input.len() && input.take(size) == der(t) {
        let n = t.value.len() as int;
        let written = der_length(n);
        let octets = written.len() as int;
        assert(size == 1 + octets + n);
        assert(input.take(size)[0] == t.tag);
        assert(input.subrange(1, 1 + octets) =~= written) by {
            assert forall|i: int| 0 <= i < octets implies input[1 + i] == #[trigger] written[i] by {
                assert(input.take(size)[1 + i] == der(t)[1 + i]);
            }
        }
        law_length_exactly(input, 1, octets, n);
        assert(input.subrange(1 + octets, size) =~= t.value) by {
            assert forall|i: int| 0 <= i < n implies input[1 + octets + i] == #[trigger] t.value[i] by {
                assert(input.take(size)[1 + octets + i] == der(t)[1 + octets + i]);
            }
        }
    }
}

/// Elements are read one by one, and nothing may be left over.
pub proof fn law_elements_are_read_in_order(input: Seq<u8>)
    ensures
        input.len() == 0 ==> elements(input) == Some(Seq::<TlvView>::empty()),
        input.len() > 0 && first_element(input) is None ==> elements(input) is None,
        first_element(input) matches Some((t, size)) ==> (elements(input) is Some <==> elements(
            input.skip(size),
        ) is Some),
        first_element(input) matches Some((t, size)) ==> (elements(input.skip(size)) matches Some(
            more,
        ) ==> elements(input)->Some_0.len() == 1 + more.len() && elements(input)->Some_0[0] == t
            && elements(input)->Some_0.skip(1) == more),
{
    if let Some((t, size)) = first_element(input) {
        if let Some(more) = elements(input.skip(size)) {
            assert((seq![t] + more).skip(1) =~= more);
        }
    }
}

/// Lists read back: elements that are written one behind the other are read as they
/// were written.
pub proof fn law_elements_read_back(list: Seq<TlvView>)
    requires
        simple_tags(list),
        der_all(list).len() <= u32::MAX,
    ensures
        elements(der_all(list)) == Some(list),
    decreases list.len(),
{
    let input = der_all(list);
    if list.len() == 0 {
        assert(list =~= seq![]);
    } else {
        let t = list[0];
        let rest = list.skip(1);
        let size = der(t).len() as int;
        assert(input[0] == t.tag);
        assert(input.take(size) =~= der(t));
        assert(input.skip(size) =~= der_all(rest));
        law_element_exactly(input, t, size);
        law_elements_read_back(rest);
        assert(seq![t] + rest =~= list);
    }
}

/// What is read was written: bytes that are read as a list of elements with tags of
/// one byte are those elements, one behind the other.
pub proof fn law_read_elements_were_written(input: Seq<u8>)
    requires
        elements(input) is Some,
        simple_tags(elements(input)->Some_0),
        input.len() <= u32::MAX,
    ensures
        input == der_all(elements(input)->Some_0),
    decreases input.len(),
{
    let list = elements(input)->Some_0;
    law_elements_are_read_in_order(input);
    if input.len() > 0 {
        let (t, size) = first_element(input)->Some_0;
        let rest = input.skip(size);
        lemma_tail_is_simple(list);
        lemma_first_was_written(input, t, size);
        law_read_elements_were_written(rest);
        assert(input =~= input.take(size) + rest);
    }
}

/// The tags of all elements but the first are of one byte.
proof fn lemma_tail_is_simple(list: Seq<TlvView>)
    requires
        list.len() > 0,
        simple_tags(list),
    ensures
        simple_tags(list.skip(1)),
        is_simple_tag(list[0].tag),
{
    assert forall|i: int| 0 <= i < list.len() - 1 implies is_simple_tag(
        (#[trigger] list.skip(1)[i]).tag,
    ) by {
        assert(list.skip(1)[i] == list[i + 1]);
    }
}

/// The first element that is read was written.
proof fn lemma_first_was_written(input: Seq<u8>, t: TlvView, size: int)
    requires
        first_element(input) == Some((t, size)),
        is_simple_tag(t.tag),
        input.len() <= u32::MAX,
    ensures
        input.take(size) == der(t),
        0 < size <= input.len(),
{
    law_element_exactly(input, t, size);
}

} // verus!
