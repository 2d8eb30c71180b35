//! What holds of the search for alternative names.

use vstd::prelude::*;
use vstd::utf8::valid_utf8;
use crate::laws::{
    dot, is_name_of, is_wildcard, law_name_covers_exactly, law_plain_name_covers_only_itself,
    law_wildcard_is_single_level, same_text, wildcard,
};
use crate::san::{
    dns_name_covers, element_at, extension_value, is_san_oid_element, names_cover, range_match,
    san_match, san_oid, san_range, san_value_covers, tag_len_at, value_position, Element,
};

verus! {

/// A length, written in the shortest of the three forms.
pub open spec fn length_bytes(n: int) -> Seq<u8> {
    if n < 0x80 {
        seq![n as u8]
    } else if n < 0x100 {
        seq![0x81u8, n as u8]
    } else {
        seq![0x82u8, (n / 0x100) as u8, (n % 0x100) as u8]
    }
}

/// An element with a tag and a content.
pub open spec fn encoded(tag: u8, content: Seq<u8>) -> Seq<u8> {
    seq![tag] + length_bytes(content.len() as int) + content
}

/// A list of general names, each a tag and a content.
pub open spec fn encoded_names(names: Seq<(u8, Seq<u8>)>) -> Seq<u8>
    decreases names.len(),
{
    if names.len() == 0 {
        seq![]
    } else {
        encoded(names[0].0, names[0].1) + encoded_names(names.skip(1))
    }
}

/// The name is a dNSName that covers the host.
pub open spec fn general_name_covers(name: (u8, Seq<u8>), host: Option<Seq<u8>>) -> bool {
    name.0 == 0x82 && dns_name_covers(name.1, host)
}

/// The content of an extension: an identifier, and an octet string with the value.
/// A flag that says that the extension is critical may stand between them.
pub open spec fn extension_content(oid: Seq<u8>, critical: Option<u8>, value: Seq<u8>) -> Seq<u8> {
    encoded(0x06, oid) + match critical {
        Some(flag) => encoded(0x01, seq![flag]),
        None => seq![],
    } + encoded(0x04, value)
}

/// The content of the extension that lists the names.
pub open spec fn san_content(critical: Option<u8>, names: Seq<(u8, Seq<u8>)>) -> Seq<u8> {
    extension_content(san_oid(), critical, encoded(0x30, encoded_names(names)))
}

/// The extension that lists the names.
pub open spec fn encoded_san(critical: Option<u8>, names: Seq<(u8, Seq<u8>)>) -> Seq<u8> {
    encoded(0x30, san_content(critical, names))
}

/// A header that was written is read back, whatever stands around the element.
pub proof fn law_header_reads_back(before: Seq<u8>, tag: u8, content: Seq<u8>, after: Seq<u8>)
    requires
        content.len() < 0x10000,
    ensures
        ({
            let data = before + encoded(tag, content) + after;
            let hdr = 1 + length_bytes(content.len() as int).len();
            &&& tag_len_at(data, before.len() as int) == Some((tag, content.len() as int, hdr as int))
            &&& data.subrange(
                (before.len() + hdr) as int,
                (before.len() + hdr + content.len()) as int,
            ) == content
        }),
{
    let data = before + encoded(tag, content) + after;
    let n = content.len() as int;
    let len = length_bytes(n);
    let at = before.len() as int;
    assert(data[at] == tag);
    assert forall|i: int| 0 <= i < len.len() implies data[at + 1 + i] == #[trigger] len[i] by {}
    assert(data[at + 1] == len[0]);
    if n >= 0x80 {
        assert(data[at + 2] == len[1]);
    }
    if n >= 0x100 {
        assert(data[at + 3] == len[2]);
    }
    assert(data.subrange(at + 1 + len.len(), at + 1 + len.len() + n) =~= content);
}

/// The element that was written at the end of `before`.
proof fn lemma_element(before: Seq<u8>, tag: u8, content: Seq<u8>, after: Seq<u8>)
    requires
        content.len() < 0x10000,
    ensures
        ({
            let data = before + encoded(tag, content) + after;
            let end = (before.len() + encoded(tag, content).len()) as int;
            element_at(data, before.len() as int) == Some(
                Element { tag, start: end - content.len(), end },
            ) && data.subrange(end - content.len(), end) == content && end <= data.len()
        }),
{
    law_header_reads_back(before, tag, content, after);
}

/// Names that were written are searched one by one.
proof fn lemma_names(before: Seq<u8>, names: Seq<(u8, Seq<u8>)>, host: Option<Seq<u8>>)
    requires
        encoded_names(names).len() < 0x10000,
    ensures
        names_cover(
            before + encoded_names(names),
            before.len() as int,
            (before + encoded_names(names)).len() as int,
            host,
        ) == Ok::<bool, ()>(
            exists|i: int| 0 <= i < names.len() && general_name_covers(#[trigger] names[i], host),
        ),
    decreases names.len(),
{
    let data = before + encoded_names(names);
    if names.len() == 0 {
        assert(data.len() == before.len());
    } else {
        let first = encoded(names[0].0, names[0].1);
        let more = encoded_names(names.skip(1));
        assert(data =~= before + first + more);
        lemma_element(before, names[0].0, names[0].1, more);
        lemma_names(before + first, names.skip(1), host);
        assert(names.skip(1).len() == names.len() - 1);
        if general_name_covers(names[0], host) {
        } else if exists|i: int|
            0 <= i < names.skip(1).len() && general_name_covers(#[trigger] names.skip(1)[i], host) {
            let i = choose|i: int|
                0 <= i < names.skip(1).len() && general_name_covers(#[trigger] names.skip(1)[i], host);
            assert(general_name_covers(names[i + 1], host));
        } else {
            assert forall|i: int| 0 <= i < names.len() implies !general_name_covers(
                #[trigger] names[i],
                host,
            ) by {
                if i > 0 {
                    assert(names.skip(1)[i - 1] == names[i]);
                }
            }
        }
    }
}

/// The value of an extension that was written is found.
proof fn lemma_value(
    before: Seq<u8>,
    critical: Option<u8>,
    value: Seq<u8>,
    after: Seq<u8>,
)
    requires
        value.len() < 0x10000,
    ensures
        ({
            let flag = match critical {
                Some(f) => encoded(0x01, seq![f]),
                None => Seq::<u8>::empty(),
            };
            let data = before + (flag + encoded(0x04, value)) + after;
            let end = (before.len() + flag.len() + encoded(0x04, value).len()) as int;
            extension_value(data, before.len() as int, end) == Some((end - value.len(), end))
                && data.subrange(end - value.len(), end) == value
        }),
{
    match critical {
        None => {
            let data = before + (Seq::<u8>::empty() + encoded(0x04, value)) + after;
            assert(data =~= before + encoded(0x04, value) + after);
            lemma_element(before, 0x04, value, after);
        },
        Some(f) => {
            let flag = encoded(0x01, seq![f]);
            let data = before + (flag + encoded(0x04, value)) + after;
            assert(data =~= before + flag + (encoded(0x04, value) + after));
            lemma_element(before, 0x01, seq![f], encoded(0x04, value) + after);
            assert(data =~= (before + flag) + encoded(0x04, value) + after);
            lemma_element(before + flag, 0x04, value, after);
        },
    }
}

/// An extension that starts with the identifier 2.5.29.17 is recognised.
#[verifier::rlimit(40)]
proof fn lemma_recognised(tail: Seq<u8>, after: Seq<u8>)
    requires
        (encoded(0x06, san_oid()) + tail).len() < 0x10000,
    ensures
        ({
            let content = encoded(0x06, san_oid()) + tail;
            let data = encoded(0x30, content) + after;
            let head = seq![0x30u8] + length_bytes(content.len() as int) + encoded(0x06, san_oid());
            let end = (head.len() + tail.len()) as int;
            &&& data == head + tail + after
            &&& san_range(data, 0) == match extension_value(data, head.len() as int, end) {
                Some(range) => Ok::<Option<(int, int)>, ()>(Some(range)),
                None => Err(()),
            }
        }),
{
    let empty = Seq::<u8>::empty();
    let oid = encoded(0x06, san_oid());
    let content = oid + tail;
    let data = encoded(0x30, content) + after;
    let start = seq![0x30u8] + length_bytes(content.len() as int);
    let head = start + oid;
    assert(data =~= head + tail + after);
    let ext = Element {
        tag: 0x30,
        start: start.len() as int,
        end: (head.len() + tail.len()) as int,
    };
    assert(element_at(data, 0) == Some(ext) && ext.end <= data.len()) by {
        assert(data =~= empty + encoded(0x30, content) + after);
        lemma_element(empty, 0x30, content, after);
    }
    assert(element_at(data, ext.start) matches Some(id) && is_san_oid_element(data, id) && id.end
        == head.len()) by {
        assert(data =~= start + oid + (tail + after));
        lemma_element(start, 0x06, san_oid(), tail + after);
    }
}

/// The value of an extension for alternative names is found where it was written.
#[verifier::rlimit(40)]
proof fn lemma_found(critical: Option<u8>, value: Seq<u8>, after: Seq<u8>)
    requires
        extension_content(san_oid(), critical, value).len() < 0x10000,
    ensures
        ({
            let data = encoded(0x30, extension_content(san_oid(), critical, value)) + after;
            san_range(data, 0) matches Ok(Some((s, e))) && data.subrange(s, e) == value
        }),
{
    let flag = match critical {
        Some(f) => encoded(0x01, seq![f]),
        None => Seq::<u8>::empty(),
    };
    let oid = encoded(0x06, san_oid());
    let tail = flag + encoded(0x04, value);
    assert(oid + flag + encoded(0x04, value) =~= oid + tail);
    let head = seq![0x30u8] + length_bytes((oid + tail).len() as int) + oid;
    lemma_recognised(tail, after);
    lemma_value(head, critical, value, after);
}

/// A list of names that was written covers the host where one of them does.
#[verifier::rlimit(40)]
proof fn lemma_list(names: Seq<(u8, Seq<u8>)>, host: Option<Seq<u8>>)
    requires
        encoded_names(names).len() < 0x10000,
    ensures
        san_value_covers(encoded(0x30, encoded_names(names)), host) == Ok::<bool, ()>(
            exists|i: int| 0 <= i < names.len() && general_name_covers(#[trigger] names[i], host),
        ),
{
    let empty = Seq::<u8>::empty();
    let list = encoded_names(names);
    let value = encoded(0x30, list);
    let head = seq![0x30u8] + length_bytes(list.len() as int);
    assert(element_at(value, 0) == Some(
        Element { tag: 0x30, start: head.len() as int, end: value.len() as int },
    )) by {
        assert(value =~= empty + value + empty);
        lemma_element(empty, 0x30, list, empty);
    }
    assert(value =~= head + list);
    lemma_names(head, names, host);
}

/// What is written is what is found: the names of an extension for alternative
/// names cover the host exactly where one of them does, whether the extension is
/// critical or not and whatever follows it.
#[verifier::rlimit(40)]
pub proof fn law_names_read_back(
    critical: Option<u8>,
    names: Seq<(u8, Seq<u8>)>,
    after: Seq<u8>,
    host: Option<Seq<u8>>,
)
    requires
        san_content(critical, names).len() < 0x10000,
    ensures
        san_match(encoded_san(critical, names) + after, host) == Ok::<Option<bool>, ()>(
            Some(exists|i: int| 0 <= i < names.len() && general_name_covers(#[trigger] names[i], host)),
        ),
{
    let value = encoded(0x30, encoded_names(names));
    assert(encoded_names(names).len() <= value.len() <= encoded(0x04, value).len()
        <= san_content(critical, names).len());
    lemma_found(critical, value, after);
    lemma_list(names, host);
}

/// Elements do not depend on where they stand.
proof fn lemma_shift_element(before: Seq<u8>, data: Seq<u8>, pos: int)
    requires
        0 <= pos,
    ensures
        element_at(before + data, before.len() + pos) == match element_at(data, pos) {
            Some(e) => Some(
                Element {
                    tag: e.tag,
                    start: before.len() + e.start,
                    end: before.len() + e.end,
                },
            ),
            None => None,
        },
        element_at(data, pos) matches Some(e) ==> pos + 2 <= e.start <= e.end,
{
    let all = before + data;
    let at = before.len() + pos;
    assert(forall|i: int| 0 <= i < data.len() ==> all[before.len() + i] == data[i]);
    if pos < data.len() {
        assert(all[at] == data[pos]);
    }
    if pos + 1 < data.len() {
        assert(all[at + 1] == data[pos + 1]);
    }
    if pos + 2 < data.len() {
        assert(all[at + 2] == data[pos + 2]);
    }
    if pos + 3 < data.len() {
        assert(all[at + 3] == data[pos + 3]);
    }
}

/// The value of an extension does not depend on where the extension stands.
proof fn lemma_shift_value(before: Seq<u8>, data: Seq<u8>, pos: int, end: int)
    requires
        0 <= pos <= end <= data.len(),
    ensures
        extension_value(before + data, before.len() + pos, before.len() + end)
            == match extension_value(data, pos, end) {
            Some((s, e)) => Some((before.len() + s, before.len() + e)),
            None => None,
        },
        extension_value(data, pos, end) matches Some((s, e)) ==> 0 <= s <= e <= end,
{
    lemma_shift_element(before, data, pos);
    if let Some(at) = value_position(data, pos, end) {
        lemma_shift_element(before, data, at);
    }
}

/// The search in one extension does not depend on where the extension stands.
#[verifier::rlimit(40)]
proof fn lemma_shift_extension(before: Seq<u8>, data: Seq<u8>, ext: Element)
    requires
        0 <= ext.start <= ext.end <= data.len(),
    ensures
        ({
            let all = before + data;
            let shifted = Element {
                tag: ext.tag,
                start: before.len() + ext.start,
                end: before.len() + ext.end,
            };
            match (element_at(data, ext.start), element_at(all, shifted.start)) {
                (Some(oid), Some(moved)) => {
                    &&& moved.end == before.len() + oid.end
                    &&& oid.end <= ext.end ==> is_san_oid_element(data, oid) == is_san_oid_element(
                        all,
                        moved,
                    )
                    &&& oid.end <= ext.end ==> extension_value(
                        all,
                        moved.end,
                        shifted.end,
                    ) == match extension_value(data, oid.end, ext.end) {
                        Some((s, e)) => Some((before.len() + s, before.len() + e)),
                        None => None,
                    }
                    &&& oid.end <= ext.end ==> (extension_value(
                        data,
                        oid.end,
                        ext.end,
                    ) matches Some((s, e)) ==> 0 <= s <= e <= ext.end)
                },
                (None, None) => true,
                _ => false,
            }
        }),
{
    let all = before + data;
    lemma_shift_element(before, data, ext.start);
    if let Some(oid) = element_at(data, ext.start) {
        if oid.end <= ext.end {
            assert(all.subrange(before.len() + oid.start, before.len() + oid.end)
                =~= data.subrange(oid.start, oid.end));
            lemma_shift_value(before, data, oid.end, ext.end);
        }
    }
}

/// The search does not depend on where the extensions stand.
#[verifier::rlimit(40)]
proof fn lemma_shift_range(before: Seq<u8>, data: Seq<u8>, pos: int)
    requires
        0 <= pos,
    ensures
        san_range(before + data, before.len() + pos) == match san_range(data, pos) {
            Ok(Some((s, e))) => Ok::<Option<(int, int)>, ()>(
                Some((before.len() + s, before.len() + e)),
            ),
            Ok(None) => Ok(None),
            Err(()) => Err(()),
        },
        san_range(data, pos) matches Ok(Some((s, e))) ==> 0 <= s <= e <= data.len(),
    decreases data.len() - pos,
{
    if pos < data.len() {
        lemma_shift_element(before, data, pos);
        if let Some(ext) = element_at(data, pos) {
            if ext.end <= data.len() {
                lemma_shift_range(before, data, ext.end);
                lemma_shift_extension(before, data, ext);
            }
        }
    }
}

/// Elements do not depend on what follows them.
proof fn lemma_prefix_element(data: Seq<u8>, after: Seq<u8>, pos: int)
    requires
        element_at(data, pos) is Some,
    ensures
        element_at(data + after, pos) == element_at(data, pos),
{
    let all = data + after;
    assert(all[pos] == data[pos]);
    assert(all[pos + 1] == data[pos + 1]);
    if pos + 2 < data.len() {
        assert(all[pos + 2] == data[pos + 2]);
    }
    if pos + 3 < data.len() {
        assert(all[pos + 3] == data[pos + 3]);
    }
}

/// The value of an extension does not depend on what follows the extension.
proof fn lemma_prefix_value(data: Seq<u8>, after: Seq<u8>, pos: int, end: int)
    requires
        0 <= pos <= end <= data.len(),
        extension_value(data, pos, end) is Some,
    ensures
        extension_value(data + after, pos, end) == extension_value(data, pos, end),
        extension_value(data, pos, end) matches Some((s, e)) ==> 0 <= s <= e <= end,
{
    lemma_shift_value(Seq::<u8>::empty(), data, pos, end);
    if pos < end {
        lemma_prefix_element(data, after, pos);
    }
    lemma_prefix_element(data, after, value_position(data, pos, end)->Some_0);
}

/// The bytes are one complete element that is no extension for alternative names:
/// it is no sequence, or it starts with a complete element that is not the
/// identifier 2.5.29.17.
pub open spec fn is_other_element(bytes: Seq<u8>) -> bool {
    element_at(bytes, 0) matches Some(e) && e.end == bytes.len() && (e.tag != 0x30 || (element_at(
        bytes,
        e.start,
    ) matches Some(first) && first.end <= e.end && !is_san_oid_element(bytes, first)))
}

/// The bytes are one complete sequence with nothing in it.
pub open spec fn is_empty_sequence(bytes: Seq<u8>) -> bool {
    element_at(bytes, 0) matches Some(e) && e.tag == 0x30 && e.start == e.end && e.end
        == bytes.len()
}

/// The element is skipped by the search: it is no extension for alternative names,
/// or it is an empty sequence with a further element behind it.
pub open spec fn is_skipped(bytes: Seq<u8>, after: Seq<u8>) -> bool {
    is_other_element(bytes) || (is_empty_sequence(bytes) && element_at(after, 0) is Some)
}

/// What is said about the host depends on nothing but the value that was found.
proof fn lemma_same_value(
    a: Seq<u8>,
    in_a: Result<Option<(int, int)>, ()>,
    b: Seq<u8>,
    in_b: Result<Option<(int, int)>, ()>,
    host: Option<Seq<u8>>,
)
    requires
        match (in_a, in_b) {
            (Ok(Some((s, e))), Ok(Some((t, f)))) => a.subrange(s, e) == b.subrange(t, f),
            (Ok(None), Ok(None)) => true,
            (Err(()), Err(())) => true,
            _ => false,
        },
    ensures
        range_match(a, in_a, host) == range_match(b, in_b, host),
{
}

/// Where the search goes on behind some bytes, it finds what it finds in the bytes
/// that follow.
proof fn lemma_range_behind(before: Seq<u8>, after: Seq<u8>)
    ensures
        match (
            san_range(before + after, before.len() as int),
            san_range(after, 0),
        ) {
            (Ok(Some((s, e))), Ok(Some((t, f)))) => (before + after).subrange(s, e)
                == after.subrange(t, f),
            (Ok(None), Ok(None)) => true,
            (Err(()), Err(())) => true,
            _ => false,
        },
{
    lemma_shift_range(before, after, 0);
    if let Ok(Some((s, e))) = san_range(after, 0) {
        assert((before + after).subrange(before.len() + s, before.len() + e) =~= after.subrange(
            s,
            e,
        ));
    }
}

/// The search goes on behind an element that is no extension for alternative
/// names.
#[verifier::rlimit(40)]
proof fn lemma_skipped(other: Seq<u8>, after: Seq<u8>)
    requires
        is_skipped(other, after),
    ensures
        san_range(other + after, 0) == san_range(other + after, other.len() as int),
{
    let data = other + after;
    let e = element_at(other, 0)->Some_0;
    let empty = Seq::<u8>::empty();
    assert(empty + other =~= other);
    lemma_shift_element(empty, other, 0);
    lemma_prefix_element(other, after, 0);
    if is_empty_sequence(other) {
        lemma_shift_element(other, after, 0);
    } else if e.tag == 0x30 {
        let first = element_at(other, e.start)->Some_0;
        lemma_shift_element(empty, other, e.start);
        lemma_prefix_element(other, after, e.start);
        assert(data.subrange(first.start, first.end) =~= other.subrange(first.start, first.end));
    }
}

/// Other elements do not matter: whatever is not an extension for alternative
/// names is skipped, an empty sequence with an element behind it included.
pub proof fn law_other_extensions_are_skipped(
    other: Seq<u8>,
    after: Seq<u8>,
    host: Option<Seq<u8>>,
)
    requires
        is_skipped(other, after),
    ensures
        san_match(other + after, host) == san_match(after, host),
{
    lemma_skipped(other, after);
    lemma_range_behind(other, after);
    lemma_same_value(
        other + after,
        san_range(other + after, 0),
        after,
        san_range(after, 0),
        host,
    );
}

/// Malformed extensions are refused: an element that reaches beyond the end, and a
/// sequence that is not empty and whose first element reaches beyond it. So is a
/// sequence behind whose header no further header can be read.
pub proof fn law_malformed_extensions_are_refused(extensions: Seq<u8>, host: Option<Seq<u8>>)
    requires
        extensions.len() > 0,
        element_at(extensions, 0) matches Some(e) ==> e.end > extensions.len() || (e.tag == 0x30 && (
        element_at(extensions, e.start) matches Some(first) ==> e.start < e.end < first.end)),
    ensures
        san_match(extensions, host) == Err::<Option<bool>, ()>(()),
{
}

/// What is found before the end of the bytes is found whatever follows them.
#[verifier::rlimit(40)]
proof fn lemma_prefix_range(data: Seq<u8>, after: Seq<u8>, pos: int)
    requires
        0 <= pos,
        san_range(data, pos) matches Ok(Some(_)),
    ensures
        san_range(data + after, pos) == san_range(data, pos),
        san_range(data, pos) matches Ok(Some((s, e))) ==> 0 <= s <= e <= data.len(),
    decreases data.len() - pos,
{
    let all = data + after;
    let empty = Seq::<u8>::empty();
    let ext = element_at(data, pos)->Some_0;
    assert(empty + data =~= data);
    lemma_shift_element(empty, data, pos);
    lemma_prefix_element(data, after, pos);
    if ext.tag != 0x30 {
        lemma_prefix_range(data, after, ext.end);
    } else {
        let oid = element_at(data, ext.start)->Some_0;
        lemma_shift_element(empty, data, ext.start);
        lemma_prefix_element(data, after, ext.start);
        if ext.start == ext.end {
            lemma_prefix_range(data, after, ext.end);
        } else {
            assert(all.subrange(oid.start, oid.end) =~= data.subrange(oid.start, oid.end));
            if is_san_oid_element(data, oid) {
                lemma_prefix_value(data, after, oid.end, ext.end);
            } else {
                lemma_prefix_range(data, after, ext.end);
            }
        }
    }
}

/// The first extension for alternative names decides: once it is found and read,
/// what follows it does not matter.
pub proof fn law_bytes_behind_the_names_do_not_matter(
    extensions: Seq<u8>,
    after: Seq<u8>,
    host: Option<Seq<u8>>,
)
    requires
        san_match(extensions, host) matches Ok(Some(_)),
    ensures
        san_match(extensions + after, host) == san_match(extensions, host),
{
    lemma_prefix_range(extensions, after, 0);
    let (s, e) = san_range(extensions, 0)->Ok_0->Some_0;
    assert((extensions + after).subrange(s, e) =~= extensions.subrange(s, e));
    lemma_same_value(
        extensions + after,
        san_range(extensions + after, 0),
        extensions,
        san_range(extensions, 0),
        host,
    );
}

/// A certificate without extensions says nothing through alternative names.
pub proof fn law_no_extensions(host: Option<Seq<u8>>)
    ensures
        san_match(Seq::<u8>::empty(), host) == Ok::<Option<bool>, ()>(None),
{
}

proof fn lemma_no_host(data: Seq<u8>, pos: int, end: int)
    ensures
        names_cover(data, pos, end, None) != Ok::<bool, ()>(true),
    decreases end - pos,
{
    if pos < end {
        if let Some(name) = element_at(data, pos) {
            if name.end <= end && name.end > pos {
                lemma_no_host(data, name.end, end);
            }
        }
    }
}

/// Without a host to look for, alternative names are found but never match.
pub proof fn law_no_host_never_matches(extensions: Seq<u8>)
    ensures
        san_match(extensions, None) != Ok::<Option<bool>, ()>(Some(true)),
{
    if let Ok(Some((s, e))) = san_range(extensions, 0) {
        let value = extensions.subrange(s, e);
        if let Some(names) = element_at(value, 0) {
            lemma_no_host(value, names.start, names.end);
        }
    }
}

/// Whether a certificate has alternative names does not depend on the host.
pub proof fn law_presence_does_not_depend_on_host(
    extensions: Seq<u8>,
    a: Option<Seq<u8>>,
    b: Option<Seq<u8>>,
)
    ensures
        san_match(extensions, a) == Ok::<Option<bool>, ()>(None) <==> san_match(extensions, b)
            == Ok::<Option<bool>, ()>(None),
{
}

/// Names that hold a NUL never match.
pub proof fn law_nul_never_matches(
    critical: Option<u8>,
    names: Seq<(u8, Seq<u8>)>,
    after: Seq<u8>,
    host: Option<Seq<u8>>,
)
    requires
        san_content(critical, names).len() < 0x10000,
        forall|i: int|
            0 <= i < names.len() && names[i].0 == 0x82 ==> (#[trigger] names[i]).1.contains(0),
    ensures
        san_match(encoded_san(critical, names) + after, host) == Ok::<Option<bool>, ()>(
            Some(false),
        ),
{
    law_names_read_back(critical, names, after, host);
}

/// The bytes write the length: one byte below 0x80, or 0x81 and a byte, or 0x82 and
/// two bytes, the more significant first.
pub open spec fn writes_length(bytes: Seq<u8>, n: int) -> bool {
    ||| bytes.len() == 1 && bytes[0] < 0x80 && n == bytes[0]
    ||| bytes.len() == 2 && bytes[0] == 0x81 && n == bytes[1]
    ||| bytes.len() == 3 && bytes[0] == 0x82 && n == bytes[1] * 0x100 + bytes[2]
}

/// A header is read exactly where one is written, at whatever position: a tag, and a
/// length in one of its three forms.
pub proof fn law_header_exactly(data: Seq<u8>, pos: int, tag: u8, len: int, hdr: int)
    ensures
        tag_len_at(data, pos) == Some((tag, len, hdr)) <==> {
            &&& 0 <= pos < pos + 2 <= pos + hdr <= data.len()
            &&& data[pos] == tag
            &&& writes_length(data.subrange(pos + 1, pos + hdr), len)
        },
{
    if 0 <= pos && 2 <= hdr && pos + hdr <= data.len() {
        let bytes = data.subrange(pos + 1, pos + hdr);
        assert(bytes.len() == hdr - 1);
        assert(bytes[0] == data[pos + 1]);
        if hdr >= 3 {
            assert(bytes[1] == data[pos + 2]);
        }
        if hdr >= 4 {
            assert(bytes[2] == data[pos + 3]);
        }
    }
}

/// The bytes are one element, with the tag and the content.
pub open spec fn is_element(bytes: Seq<u8>, tag: u8, content: Seq<u8>) -> bool {
    let hdr = bytes.len() - content.len();
    &&& hdr >= 2
    &&& bytes[0] == tag
    &&& writes_length(bytes.subrange(1, hdr), content.len() as int)
    &&& bytes.skip(hdr) == content
}

/// The element that the bytes start with, where it is complete: its tag, its content,
/// and the bytes behind it.
pub open spec fn split(data: Seq<u8>) -> Option<(u8, Seq<u8>, Seq<u8>)> {
    match element_at(data, 0) {
        Some(e) if e.end <= data.len() => Some(
            (e.tag, data.subrange(e.start, e.end), data.skip(e.end)),
        ),
        _ => None,
    }
}

/// Bytes start with an element exactly where one is written there, and the bytes
/// behind it are all that is left.
pub proof fn law_split_exactly(data: Seq<u8>, tag: u8, content: Seq<u8>, rest: Seq<u8>)
    ensures
        split(data) == Some((tag, content, rest)) <==> {
            let size = data.len() - rest.len();
            size >= 0 && is_element(data.take(size), tag, content) && data.skip(size) == rest
        },
{
    let size = data.len() - rest.len();
    if split(data) == Some((tag, content, rest)) {
        let (t, len, hdr) = tag_len_at(data, 0)->Some_0;
        law_header_exactly(data, 0, t, len, hdr);
        let bytes = data.take(size);
        assert(size == hdr + len);
        assert(content.len() == len);
        assert(bytes.subrange(1, hdr) =~= data.subrange(1, hdr));
        assert(bytes.skip(hdr) =~= content);
    }
    if size >= 0 && is_element(data.take(size), tag, content) && data.skip(size) == rest {
        let bytes = data.take(size);
        let hdr = size - content.len();
        assert(bytes.subrange(1, hdr) =~= data.subrange(1, hdr));
        law_header_exactly(data, 0, tag, content.len() as int, hdr);
        assert(data.subrange(hdr, size) =~= bytes.skip(hdr));
    }
}

/// Elements of a part of some bytes are elements of the bytes, and an element whose
/// header is not in the part reaches beyond it.
proof fn lemma_part_element(data: Seq<u8>, start: int, end: int, pos: int)
    requires
        0 <= start <= pos <= end <= data.len(),
    ensures
        match (element_at(data.subrange(start, end), pos - start), element_at(data, pos)) {
            (Some(e), Some(f)) => e.tag == f.tag && f.start == start + e.start && f.end == start
                + e.end && pos + 2 <= f.start <= f.end,
            (Some(e), None) => false,
            (None, Some(f)) => f.end > end,
            (None, None) => true,
        },
{
    let part = data.subrange(start, end);
    let at = pos - start;
    if pos < end {
        assert(part[at] == data[pos]);
    }
    if pos + 1 < end {
        assert(part[at + 1] == data[pos + 1]);
    }
    if pos + 2 < end {
        assert(part[at + 2] == data[pos + 2]);
    }
    if pos + 3 < end {
        assert(part[at + 3] == data[pos + 3]);
    }
}

/// The search among names does not depend on where the list stands.
proof fn lemma_part_names(data: Seq<u8>, start: int, end: int, pos: int, host: Option<Seq<u8>>)
    requires
        0 <= start <= pos <= end <= data.len(),
    ensures
        names_cover(data, pos, end, host) == names_cover(
            data.subrange(start, end),
            pos - start,
            end - start,
            host,
        ),
    decreases end - pos,
{
    let part = data.subrange(start, end);
    if pos < end {
        lemma_part_element(data, start, end, pos);
        if let Some(f) = element_at(data, pos) {
            if f.end <= end {
                assert(part.subrange(f.start - start, f.end - start) =~= data.subrange(
                    f.start,
                    f.end,
                ));
                lemma_part_names(data, start, end, f.end, host);
            }
        }
    }
}

/// What a list of names says about the host.
pub open spec fn list_covers(list: Seq<u8>, host: Option<Seq<u8>>) -> Result<bool, ()> {
    names_cover(list, 0, list.len() as int, host)
}

/// A dNSName names the host: it is UTF-8, holds no NUL, and is a name of the host.
pub open spec fn is_dns_name_of(name: Seq<u8>, host: Option<Seq<u8>>) -> bool {
    &&& valid_utf8(name)
    &&& forall|i: int| 0 <= i < name.len() ==> #[trigger] name[i] != 0
    &&& host matches Some(h) && is_name_of(name, h)
}

/// A dNSName covers the host exactly where it names it.
pub proof fn law_dns_name_covers_exactly(name: Seq<u8>, host: Option<Seq<u8>>)
    ensures
        dns_name_covers(name, host) <==> is_dns_name_of(name, host),
{
    if let Some(h) = host {
        law_name_covers_exactly(name, h);
    }
    if !name.contains(0) {
        assert forall|i: int| 0 <= i < name.len() implies #[trigger] name[i] != 0 by {
            assert(name.contains(name[i]));
        }
    }
}

/// Names are looked at one by one: a dNSName of the host ends the search, any other
/// name is left to the rest of the list, and a name that is not complete is an error.
pub proof fn law_names_are_searched_in_order(list: Seq<u8>, host: Option<Seq<u8>>)
    ensures
        list.len() == 0 ==> list_covers(list, host) == Ok::<bool, ()>(false),
        list.len() > 0 && split(list) is None ==> list_covers(list, host) is Err,
        split(list) matches Some((tag, name, rest)) ==> list_covers(list, host) == if tag == 0x82
            && is_dns_name_of(name, host) {
            Ok::<bool, ()>(true)
        } else {
            list_covers(rest, host)
        },
{
    if let Some((tag, name, rest)) = split(list) {
        let e = element_at(list, 0)->Some_0;
        let n = list.len() as int;
        law_dns_name_covers_exactly(name, host);
        lemma_part_element(list, 0, n, 0);
        lemma_part_names(list, e.end, n, e.end, host);
        assert(list.subrange(e.end, n) =~= rest);
    }
}

/// The value of an extension holds a list: a sequence, with anything behind it.
pub proof fn law_value_is_a_list(value: Seq<u8>, host: Option<Seq<u8>>)
    ensures
        match split(value) {
            Some((tag, list, rest)) if tag == 0x30 => san_value_covers(value, host) == list_covers(
                list,
                host,
            ),
            _ => san_value_covers(value, host) is Err,
        },
{
    lemma_part_element(value, 0, value.len() as int, 0);
    assert(value.subrange(0, value.len() as int) =~= value);
    if let Some((tag, list, rest)) = split(value) {
        let e = element_at(value, 0)->Some_0;
        lemma_part_names(value, e.start, e.end, e.start, host);
    }
}

/// The octets behind the identifier of an extension: those of the octet string there,
/// behind the flag that says whether the extension is critical, where there is one.
pub open spec fn octets_behind(content: Seq<u8>) -> Option<Seq<u8>> {
    match split(content) {
        Some((tag, value, _)) if tag == 0x04 => Some(value),
        Some((tag, _, rest)) if tag == 0x01 => match split(rest) {
            Some((t, value, _)) if t == 0x04 => Some(value),
            _ => None,
        },
        _ => None,
    }
}

/// The value of an extension is what stands behind its identifier.
#[verifier::rlimit(40)]
proof fn lemma_octets(data: Seq<u8>, pos: int, end: int)
    requires
        0 <= pos <= end <= data.len(),
    ensures
        match (extension_value(data, pos, end), octets_behind(data.subrange(pos, end))) {
            (Some((s, e)), Some(value)) => 0 <= s <= e <= end && data.subrange(s, e) == value,
            (None, None) => true,
            _ => false,
        },
{
    let part = data.subrange(pos, end);
    lemma_part_element(data, pos, end, pos);
    if let Some(flag) = element_at(data, pos) {
        if flag.end <= end {
            let e = element_at(part, 0)->Some_0;
            assert(part.subrange(e.start, e.end) =~= data.subrange(flag.start, flag.end));
            let rest = part.skip(e.end);
            assert(rest =~= data.subrange(flag.end, end));
            lemma_part_element(data, flag.end, end, flag.end);
            if let Some(value) = element_at(data, flag.end) {
                if value.end <= end {
                    let f = element_at(rest, 0)->Some_0;
                    assert(rest.subrange(f.start, f.end) =~= data.subrange(value.start, value.end));
                }
            }
        }
    }
}

/// What an extension for alternative names says about the host, given what stands
/// behind its identifier.
pub open spec fn extension_says(content: Seq<u8>, host: Option<Seq<u8>>) -> Result<
    Option<bool>,
    (),
> {
    match octets_behind(content) {
        None => Err(()),
        Some(value) => match san_value_covers(value, host) {
            Ok(covered) => Ok(Some(covered)),
            Err(()) => Err(()),
        },
    }
}

/// Where the search goes on behind the first element, it says what it says of the
/// bytes there.
#[verifier::rlimit(40)]
proof fn lemma_goes_on(data: Seq<u8>, host: Option<Seq<u8>>)
    requires
        split(data) is Some,
        san_range(data, 0) == san_range(data, element_at(data, 0)->Some_0.end),
    ensures
        san_match(data, host) == san_match(split(data)->Some_0.2, host),
{
    let end = element_at(data, 0)->Some_0.end;
    let rest = data.skip(end);
    lemma_part_element(data, 0, data.len() as int, 0);
    assert(data.subrange(0, data.len() as int) =~= data);
    let front = data.take(end);
    assert(data =~= front + rest);
    lemma_range_behind(front, rest);
    lemma_same_value(data, san_range(data, end), rest, san_range(rest, 0), host);
}

/// Which elements the search leaves to the bytes behind them.
#[verifier::rlimit(40)]
proof fn lemma_left_behind(data: Seq<u8>)
    requires
        split(data) is Some,
    ensures
        ({
            let (tag, content, rest) = split(data)->Some_0;
            let next = san_range(data, element_at(data, 0)->Some_0.end);
            let range = san_range(data, 0);
            &&& tag != 0x30 ==> range == next
            &&& tag == 0x30 && content.len() == 0 && tag_len_at(rest, 0) is Some ==> range == next
            &&& tag == 0x30 && content.len() == 0 && tag_len_at(rest, 0) is None ==> range is Err
            &&& tag == 0x30 && content.len() > 0 && split(content) is None ==> range is Err
        }),
{
    let n = data.len() as int;
    let ext = element_at(data, 0)->Some_0;
    lemma_part_element(data, 0, n, 0);
    assert(data.subrange(0, n) =~= data);
    lemma_part_element(data, ext.start, ext.end, ext.start);
    lemma_part_element(data, ext.end, n, ext.end);
    assert(data.subrange(ext.end, n) =~= data.skip(ext.end));
}

/// The first element of a part of some bytes, where it is complete.
#[verifier::rlimit(40)]
proof fn lemma_first_of_part(data: Seq<u8>, start: int, end: int) -> (found: Element)
    requires
        0 <= start <= end <= data.len(),
        split(data.subrange(start, end)) is Some,
    ensures
        ({
            let (t, id, behind) = split(data.subrange(start, end))->Some_0;
            &&& element_at(data, start) == Some(found)
            &&& start + 2 <= found.start <= found.end <= end
            &&& found.tag == t
            &&& data.subrange(found.start, found.end) == id
            &&& data.subrange(found.end, end) == behind
        }),
{
    let part = data.subrange(start, end);
    lemma_part_element(data, start, end, start);
    let found = element_at(data, start)->Some_0;
    let e = element_at(part, 0)->Some_0;
    assert(part.subrange(e.start, e.end) =~= data.subrange(found.start, found.end));
    assert(part.skip(e.end) =~= data.subrange(found.end, end));
    found
}

/// The first element inside of a sequence, as the search sees it.
#[verifier::rlimit(40)]
proof fn lemma_first_inside(data: Seq<u8>) -> (found: (Element, Element))
    requires
        split(data) matches Some((tag, content, _)) && split(content) is Some,
    ensures
        ({
            let (ext, oid) = found;
            let (tag, content, rest) = split(data)->Some_0;
            let (t, id, behind) = split(content)->Some_0;
            &&& element_at(data, 0) == Some(ext)
            &&& element_at(data, ext.start) == Some(oid)
            &&& 2 <= ext.start < oid.end <= ext.end <= data.len()
            &&& ext.tag == tag
            &&& oid.tag == t
            &&& data.subrange(oid.start, oid.end) == id
            &&& data.subrange(oid.end, ext.end) == behind
        }),
{
    let n = data.len() as int;
    assert(data.subrange(0, n) =~= data);
    let ext = lemma_first_of_part(data, 0, n);
    let oid = lemma_first_of_part(data, ext.start, ext.end);
    (ext, oid)
}

/// What the search finds in a sequence that starts with a complete element.
#[verifier::rlimit(40)]
proof fn lemma_found_inside(data: Seq<u8>, ext: Element, oid: Element)
    requires
        element_at(data, 0) == Some(ext),
        element_at(data, ext.start) == Some(oid),
        ext.tag == 0x30,
        0 < ext.start < oid.end <= ext.end <= data.len(),
    ensures
        san_range(data, 0) == if oid.tag == 0x06 && data.subrange(oid.start, oid.end) == seq![
            0x55u8,
            0x1du8,
            0x11u8,
        ] {
            match extension_value(data, oid.end, ext.end) {
                Some(range) => Ok::<Option<(int, int)>, ()>(Some(range)),
                None => Err(()),
            }
        } else {
            san_range(data, ext.end)
        },
{
    assert(seq![0x55u8, 0x1du8, 0x11u8] == san_oid());
}

/// What the search makes of a sequence that starts with a complete element.
#[verifier::rlimit(40)]
proof fn lemma_identified(data: Seq<u8>, host: Option<Seq<u8>>)
    requires
        split(data) matches Some((tag, content, _)) && tag == 0x30 && split(content) is Some,
    ensures
        ({
            let content = split(data)->Some_0.1;
            let (t, id, behind) = split(content)->Some_0;
            if t == 0x06 && id == seq![0x55u8, 0x1du8, 0x11u8] {
                san_match(data, host) == extension_says(behind, host)
            } else {
                san_range(data, 0) == san_range(data, element_at(data, 0)->Some_0.end)
            }
        }),
{
    let (ext, oid) = lemma_first_inside(data);
    lemma_found_inside(data, ext, oid);
    lemma_octets(data, oid.end, ext.end);
}

/// Extensions are looked at one by one.
///
/// Nothing is said where there are none, and one that is not complete is an error. An
/// element that is no sequence is left to the bytes behind it; and so is an empty
/// sequence, if a header can be read behind it. A sequence that starts with no
/// complete element is an error. One that starts with the identifier 2.5.29.17 gives
/// the answer, and any other is left to the bytes behind it.
#[verifier::rlimit(40)]
pub proof fn law_extensions_are_searched_in_order(data: Seq<u8>, host: Option<Seq<u8>>)
    ensures
        data.len() == 0 ==> san_match(data, host) == Ok::<Option<bool>, ()>(None),
        data.len() > 0 && split(data) is None ==> san_match(data, host) is Err,
        split(data) matches Some((tag, content, rest)) ==> san_match(data, host) == if tag != 0x30 {
            san_match(rest, host)
        } else if content.len() == 0 {
            if tag_len_at(rest, 0) is Some {
                san_match(rest, host)
            } else {
                Err::<Option<bool>, ()>(())
            }
        } else {
            match split(content) {
                None => Err(()),
                Some((t, id, behind)) => if t == 0x06 && id == seq![0x55u8, 0x1du8, 0x11u8] {
                    extension_says(behind, host)
                } else {
                    san_match(rest, host)
                },
            }
        },
{
    if let Some((tag, content, rest)) = split(data) {
        lemma_left_behind(data);
        if tag == 0x30 && content.len() > 0 && split(content) is Some {
            lemma_identified(data, host);
        }
        if san_range(data, 0) == san_range(data, element_at(data, 0)->Some_0.end) {
            lemma_goes_on(data, host);
        }
    }
}

/// The names of an extension are matched by the rules for names of a host: what is
/// written as alternative names covers the host exactly where one of them is a
/// dNSName of the host.
pub proof fn law_alternative_names_match_exactly(
    critical: Option<u8>,
    names: Seq<(u8, Seq<u8>)>,
    after: Seq<u8>,
    host: Option<Seq<u8>>,
)
    requires
        san_content(critical, names).len() < 0x10000,
    ensures
        san_match(encoded_san(critical, names) + after, host) == Ok::<Option<bool>, ()>(
            Some(
                exists|i: int|
                    0 <= i < names.len() && (#[trigger] names[i]).0 == 0x82 && is_dns_name_of(
                        names[i].1,
                        host,
                    ),
            ),
        ),
{
    law_names_read_back(critical, names, after, host);
    assert forall|i: int| 0 <= i < names.len() implies general_name_covers(
        #[trigger] names[i],
        host,
    ) == (names[i].0 == 0x82 && is_dns_name_of(names[i].1, host)) by {
        law_dns_name_covers_exactly(names[i].1, host);
    }
}

/// A wildcard among the alternative names stands for a single label: where it is the
/// only name, a host with two labels before its suffix does not match.
pub proof fn law_alternative_wildcard_is_single_level(
    critical: Option<u8>,
    first: Seq<u8>,
    second: Seq<u8>,
    suffix: Seq<u8>,
    after: Seq<u8>,
)
    requires
        san_content(critical, seq![(0x82u8, wildcard(suffix))]).len() < 0x10000,
    ensures
        san_match(
            encoded_san(critical, seq![(0x82u8, wildcard(suffix))]) + after,
            Some(first + dot() + second + dot() + suffix),
        ) == Ok::<Option<bool>, ()>(Some(false)),
{
    let names = seq![(0x82u8, wildcard(suffix))];
    let host = first + dot() + second + dot() + suffix;
    law_alternative_names_match_exactly(critical, names, after, Some(host));
    law_wildcard_is_single_level(first, second, suffix);
    law_name_covers_exactly(wildcard(suffix), host);
    assert forall|i: int| 0 <= i < names.len() implies !is_dns_name_of(
        (#[trigger] names[i]).1,
        Some(host),
    ) by {
        assert(names[i].1 == wildcard(suffix));
    }
}

/// A name without a wildcard among the alternative names stands for itself: where it
/// is the only name, a host of another length does not match.
pub proof fn law_alternative_name_covers_only_itself(
    critical: Option<u8>,
    name: Seq<u8>,
    after: Seq<u8>,
    host: Seq<u8>,
)
    requires
        san_content(critical, seq![(0x82u8, name)]).len() < 0x10000,
        !is_wildcard(name),
        valid_utf8(name),
        !name.contains(0),
    ensures
        san_match(encoded_san(critical, seq![(0x82u8, name)]) + after, Some(host)) == Ok::<
            Option<bool>,
            (),
        >(Some(same_text(name, host))),
{
    let names = seq![(0x82u8, name)];
    law_alternative_names_match_exactly(critical, names, after, Some(host));
    law_dns_name_covers_exactly(name, Some(host));
    law_plain_name_covers_only_itself(name, host);
    assert(names[0] == (0x82u8, name));
}

} // verus!
