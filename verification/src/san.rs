//! Search of certificate extensions for the Subject Alternative Names.
//!
//! The extensions are read in place. Positions are offsets into the bytes of the
//! `Extensions` sequence, whose own tag and length are already taken off.

use vstd::prelude::*;
use vstd::string::StringSliceAdditionalSpecFns;
use vstd::utf8::valid_utf8;
use crate::hostname::{hostname_matches, name_covers};

verus! {

/// The tag, the content length and the header length of the element at `pos`.
///
/// A length is one byte below 0x80, or 0x81 and one byte, or 0x82 and two bytes,
/// the more significant first.
pub open spec fn tag_len_at(data: Seq<u8>, pos: int) -> Option<(u8, int, int)> {
    if pos < 0 || pos + 1 >= data.len() {
        None
    } else if data[pos + 1] < 0x80 {
        Some((data[pos], data[pos + 1] as int, 2))
    } else if data[pos + 1] == 0x81 && pos + 2 < data.len() {
        Some((data[pos], data[pos + 2] as int, 3))
    } else if data[pos + 1] == 0x82 && pos + 3 < data.len() {
        Some((data[pos], data[pos + 2] * 0x100 + data[pos + 3], 4))
    } else {
        None
    }
}

/// An element of a DER encoding: its tag and the range of its content.
pub struct Element {
    pub tag: u8,
    pub start: int,
    pub end: int,
}

/// The element at `pos`; none where its header cannot be read.
pub open spec fn element_at(data: Seq<u8>, pos: int) -> Option<Element> {
    match tag_len_at(data, pos) {
        Some((tag, len, hdr)) => Some(Element { tag, start: pos + hdr, end: pos + hdr + len }),
        None => None,
    }
}

/// The object identifier 2.5.29.17, as content bytes.
pub open spec fn san_oid() -> Seq<u8> {
    seq![0x55u8, 0x1du8, 0x11u8]
}

/// The element is the object identifier 2.5.29.17, with which an extension for
/// alternative names starts.
pub open spec fn is_san_oid_element(data: Seq<u8>, oid: Element) -> bool {
    oid.tag == 0x06 && data.subrange(oid.start, oid.end) == san_oid()
}

/// Where the value of an extension starts: behind the `critical` flag, if the
/// element at `pos` is one.
pub open spec fn value_position(data: Seq<u8>, pos: int, end: int) -> Option<int> {
    if pos >= end {
        Some(pos)
    } else {
        match element_at(data, pos) {
            None => None,
            Some(flag) => if flag.tag != 0x01 {
                Some(pos)
            } else if flag.end <= end {
                Some(flag.end)
            } else {
                None
            },
        }
    }
}

/// The range of the octet string that is the value of an extension whose
/// identifier ends at `pos`.
pub open spec fn extension_value(data: Seq<u8>, pos: int, end: int) -> Option<(int, int)> {
    match value_position(data, pos, end) {
        Some(at) if at < end => match element_at(data, at) {
            Some(value) if value.tag == 0x04 && value.end <= end => Some((value.start, value.end)),
            _ => None,
        },
        _ => None,
    }
}

/// The range of the value of the first extension for alternative names, from
/// `pos` on. `Ok(None)` where there is no such extension, `Err` where the
/// elements up to it are malformed: one of them, or the first element inside a
/// sequence, reaches beyond what holds it or has no header that can be read. An
/// empty sequence is skipped, as long as a header can be read behind it.
pub open spec fn san_range(data: Seq<u8>, pos: int) -> Result<Option<(int, int)>, ()>
    decreases data.len() - pos,
{
    if pos >= data.len() {
        Ok(None)
    } else {
        match element_at(data, pos) {
            Some(ext) if ext.end <= data.len() => if ext.tag != 0x30 {
                san_range(data, ext.end)
            } else {
                match element_at(data, ext.start) {
                    None => Err(()),
                    Some(oid) => if ext.start == ext.end {
                        san_range(data, ext.end)
                    } else if oid.end > ext.end {
                        Err(())
                    } else if is_san_oid_element(data, oid) {
                        match extension_value(data, oid.end, ext.end) {
                            Some(range) => Ok(Some(range)),
                            None => Err(()),
                        }
                    } else {
                        san_range(data, ext.end)
                    },
                }
            },
            _ => Err(()),
        }
    }
}

/// A dNSName covers the host. Bytes that are not UTF-8 and names that hold a NUL
/// cover nothing, and nothing is covered where no host is given.
pub open spec fn dns_name_covers(name: Seq<u8>, host: Option<Seq<u8>>) -> bool {
    valid_utf8(name) && !name.contains(0) && (host matches Some(h) && name_covers(name, h))
}

/// Whether one of the names from `pos` to `end` covers the host: `Ok(true)` as
/// soon as a dNSName does, `Ok(false)` where all are read and none does, `Err`
/// where one of the names read is malformed.
pub open spec fn names_cover(
    data: Seq<u8>,
    pos: int,
    end: int,
    host: Option<Seq<u8>>,
) -> Result<bool, ()>
    decreases end - pos,
{
    if pos >= end {
        Ok(false)
    } else {
        match element_at(data, pos) {
            Some(name) if name.end <= end => if name.tag == 0x82 && dns_name_covers(
                data.subrange(name.start, name.end),
                host,
            ) {
                Ok(true)
            } else {
                names_cover(data, name.end, end, host)
            },
            _ => Err(()),
        }
    }
}

/// Whether the value of an extension for alternative names covers the host.
pub open spec fn san_value_covers(value: Seq<u8>, host: Option<Seq<u8>>) -> Result<bool, ()> {
    match element_at(value, 0) {
        Some(names) if names.tag == 0x30 && names.end <= value.len() => names_cover(
            value,
            names.start,
            names.end,
            host,
        ),
        _ => Err(()),
    }
}

/// What the value in the range, where there is one, says about the host.
pub open spec fn range_match(
    data: Seq<u8>,
    range: Result<Option<(int, int)>, ()>,
    host: Option<Seq<u8>>,
) -> Result<Option<bool>, ()> {
    match range {
        Err(()) => Err(()),
        Ok(None) => Ok(None),
        Ok(Some((start, end))) => match san_value_covers(data.subrange(start, end), host) {
            Ok(covered) => Ok(Some(covered)),
            Err(()) => Err(()),
        },
    }
}

/// What the alternative names among the extensions say about the host.
pub open spec fn san_match(extensions: Seq<u8>, host: Option<Seq<u8>>) -> Result<
    Option<bool>,
    (),
> {
    range_match(extensions, san_range(extensions, 0), host)
}

/// The bytes of an optional host name.
pub open spec fn host_bytes(hostname: Option<&str>) -> Option<Seq<u8>> {
    match hostname {
        Some(host) => Some(host.spec_bytes()),
        None => None,
    }
}

/// Read a DER tag and length at the given position.
/// Returns (tag, content_length, header_length) or None.
pub fn read_tag_len(data: &[u8], pos: usize) -> (r: Option<(u8, usize, usize)>)
    ensures
        match r {
            Some((tag, len, hdr)) => tag_len_at(data@, pos as int) == Some(
                (tag, len as int, hdr as int),
            ),
            None => tag_len_at(data@, pos as int) is None,
        },
        r matches Some((_, len, hdr)) ==> pos + hdr <= data.len() && len < 0x10000,
{
    if pos >= data.len() || data.len() - pos < 2 {
        return None;
    }
    let tag: u8 = data[pos];
    let first: u8 = data[pos + 1];
    if first < 0x80 {
        // Short form: length is the byte itself
        Some((tag, first as usize, 2))
    } else if first == 0x81 {
        // Long form: 1 byte length
        if data.len() - pos < 3 {
            return None;
        }
        Some((tag, data[pos + 2] as usize, 3))
    } else if first == 0x82 {
        // Long form: 2 byte length
        if data.len() - pos < 4 {
            return None;
        }
        let len: usize = (data[pos + 2] as usize) * 0x100 + (data[pos + 3] as usize);
        Some((tag, len, 4))
    } else {
        // Unsupported length encoding
        None
    }
}

/// The tag and the content range of the element at `pos`, where it ends at or
/// before `end`.
fn read_element(data: &[u8], pos: usize, end: usize) -> (r: Option<(u8, usize, usize)>)
    requires
        end <= data@.len(),
    ensures
        match r {
            Some((tag, start, stop)) => element_at(data@, pos as int) == Some(
                (Element { tag, start: start as int, end: stop as int }),
            ) && pos + 2 <= start <= stop <= end,
            None => element_at(data@, pos as int) matches Some(e) ==> e.end > end,
        },
{
    match read_tag_len(data, pos) {
        None => None,
        Some((tag, len, hdr)) => {
            let start: usize = pos + hdr;
            if start > end || len > end - start {
                None
            } else {
                Some((tag, start, start + len))
            }
        },
    }
}

/// Whether the bytes from `start` to `end` are the identifier 2.5.29.17.
fn is_san_oid(data: &[u8], start: usize, end: usize) -> (r: bool)
    requires
        start <= end <= data@.len(),
    ensures
        r == (data@.subrange(start as int, end as int) == san_oid()),
{
    let r: bool = end - start == 3 && data[start] == 0x55 && data[start + 1] == 0x1d && data[start
        + 2] == 0x11;
    proof {
        let oid = data@.subrange(start as int, end as int);
        if r {
            assert(oid =~= san_oid());
        } else if oid == san_oid() {
            assert(oid.len() == 3);
            assert(oid[0] == data@[start as int]);
            assert(oid[1] == data@[start + 1]);
            assert(oid[2] == data@[start + 2]);
        }
    }
    r
}

/// The range of the octet string that is the value of an extension whose
/// identifier ends at `pos`.
fn read_extension_value(data: &[u8], pos: usize, end: usize) -> (r: Option<(usize, usize)>)
    requires
        pos <= end <= data@.len(),
    ensures
        match r {
            Some((start, stop)) => extension_value(data@, pos as int, end as int) == Some(
                (start as int, stop as int),
            ) && start <= stop <= end,
            None => extension_value(data@, pos as int, end as int) is None,
        },
{
    let mut at: usize = pos;
    // Skip optional BOOLEAN (critical flag)
    if pos < end {
        match read_tag_len(data, pos) {
            None => {
                return None;
            },
            Some((tag, len, hdr)) => {
                if tag == 0x01 {
                    let start: usize = pos + hdr;
                    if start > end || len > end - start {
                        return None;
                    }
                    at = start + len;
                }
            },
        }
    }
    // Read OCTET STRING containing the SAN value
    if at >= end {
        return None;
    }
    match read_element(data, at, end) {
        Some((tag, start, stop)) if tag == 0x04 => Some((start, stop)),
        _ => None,
    }
}

/// The range of the value of the first extension for alternative names.
fn find_san(data: &[u8]) -> (r: Result<Option<(usize, usize)>, ()>)
    ensures
        match r {
            Ok(Some((start, end))) => san_range(data@, 0) == Ok::<Option<(int, int)>, ()>(
                Some((start as int, end as int)),
            ) && start <= end <= data@.len(),
            Ok(None) => san_range(data@, 0) == Ok::<Option<(int, int)>, ()>(None),
            Err(()) => san_range(data@, 0) is Err,
        },
{
    let len: usize = data.len();
    let mut pos: usize = 0;
    while pos < len
        invariant
            pos <= len == data@.len(),
            san_range(data@, 0) == san_range(data@, pos as int),
        decreases len - pos,
    {
        let (tag, ext_start, ext_end) = match read_element(data, pos, len) {
            Some(element) => element,
            None => {
                return Err(());
            },
        };
        if tag == 0x30 {
            match read_tag_len(data, ext_start) {
                None => {
                    return Err(());
                },
                Some((oid_tag, oid_len, oid_hdr)) => {
                    // An empty sequence names no extension
                    if ext_start < ext_end {
                        let oid_start: usize = ext_start + oid_hdr;
                        if oid_start > ext_end || oid_len > ext_end - oid_start {
                            return Err(());  // Malformed: identifier exceeds the extension
                        }
                        if oid_tag == 0x06 && is_san_oid(data, oid_start, oid_start + oid_len) {
                            return match read_extension_value(data, oid_start + oid_len, ext_end) {
                                Some(range) => Ok(Some(range)),
                                None => Err(()),
                            };
                        }
                    }
                },
            }
        }
        pos = ext_end;
    }
    Ok(None)
}

/// `core::str::from_utf8`: the bytes as text, where they are valid UTF-8.
#[verifier::external_body]
fn text_from_utf8(bytes: &[u8]) -> (r: Option<&str>)
    ensures
        r is Some <==> valid_utf8(bytes@),
        r is Some ==> r->Some_0.spec_bytes() == bytes@,
{
    core::str::from_utf8(bytes).ok()
}

fn holds_nul(bytes: &[u8]) -> (r: bool)
    ensures
        r == bytes@.contains(0),
{
    let mut i: usize = 0;
    while i < bytes.len()
        invariant
            i <= bytes@.len(),
            forall|j: int| 0 <= j < i ==> bytes@[j] != 0,
        decreases bytes@.len() - i,
    {
        if bytes[i] == 0 {
            return true;
        }
        i = i + 1;
    }
    false
}

/// Whether a dNSName covers the host.
fn dns_name_matches(name: &[u8], hostname: Option<&str>) -> (r: bool)
    ensures
        r == dns_name_covers(name@, host_bytes(hostname)),
{
    match (text_from_utf8(name), hostname) {
        (Some(text), Some(host)) => !holds_nul(name) && hostname_matches(text, host),
        _ => false,
    }
}

/// Whether the value of an extension for alternative names covers the host.
fn san_value_matches(value: &[u8], hostname: Option<&str>) -> (r: Result<bool, ()>)
    ensures
        r == san_value_covers(value@, host_bytes(hostname)),
{
    let (tag, start, end) = match read_element(value, 0, value.len()) {
        Some(element) => element,
        None => {
            return Err(());
        },
    };
    if tag != 0x30 {
        return Err(());
    }
    let mut pos: usize = start;
    while pos < end
        invariant
            pos <= end <= value@.len(),
            san_value_covers(value@, host_bytes(hostname)) == names_cover(
                value@,
                pos as int,
                end as int,
                host_bytes(hostname),
            ),
        decreases end - pos,
    {
        let (name_tag, name_start, name_end) = match read_element(value, pos, end) {
            Some(element) => element,
            None => {
                return Err(());
            },
        };
        // Context tag [2] = dNSName (implicit IA5String)
        if name_tag == 0x82 && dns_name_matches(&value[name_start..name_end], hostname) {
            return Ok(true);
        }
        pos = name_end;
    }
    Ok(false)
}

/// Stream-check hostname against Subject Alternative Name DNS entries.
///
/// Parses extensions DER bytes to find the SAN extension (OID 2.5.29.17),
/// then evaluates each dNSName entry against the hostname during parsing.
/// No allocation - returns early on first match.
///
/// Returns:
/// - `Ok(None)` - no SAN extension found (caller should fall back to CN)
/// - `Ok(Some(true))` - a SAN DNS name matched the hostname
/// - `Ok(Some(false))` - SANs present but none matched
/// - `Err(())` - malformed DER (caller must reject the certificate)
pub fn san_matches_hostname(extensions_bytes: &[u8], hostname: Option<&str>) -> (r: Result<
    Option<bool>,
    (),
>)
    ensures
        r == san_match(extensions_bytes@, host_bytes(hostname)),
{
    match find_san(extensions_bytes) {
        Err(()) => Err(()),
        Ok(None) => Ok(None),
        Ok(Some((start, end))) => match san_value_matches(&extensions_bytes[start..end], hostname) {
            Ok(covered) => Ok(Some(covered)),
            Err(()) => Err(()),
        },
    }
}

} // verus!
