//! Fixed-capacity buffers of the `heapless` crate.
//!
//! The contents of a buffer are named by a function from the buffer to the
//! sequence of its bytes. The functions below are the only ones that touch a
//! buffer, and their contracts are believed, not proved.

use vstd::prelude::*;
use vstd::string::StringSliceAdditionalSpecFns;
use vstd::utf8::valid_utf8;

verus! {

#[verifier::external_type_specification]
#[verifier::external_body]
pub struct ExHeaplessString<const N: usize>(heapless::String<N>);

#[verifier::external_type_specification]
#[verifier::external_body]
#[verifier::reject_recursive_types(T)]
pub struct ExHeaplessVec<T, const N: usize>(heapless::Vec<T, N>);

/// The UTF-8 bytes that a name buffer holds.
pub uninterp spec fn name_bytes(name: heapless::String<64>) -> Seq<u8>;

/// The bytes that a buffer for a name attribute holds.
pub uninterp spec fn attribute_bytes(buffer: heapless::Vec<u8, 64>) -> Seq<u8>;

/// The bytes that a message buffer holds.
pub uninterp spec fn message_bytes(buffer: heapless::Vec<u8, 146>) -> Seq<u8>;

/// `heapless::String::try_from`: copies the text where its bytes fit in the
/// capacity, and fails otherwise.
#[verifier::external_body]
pub(crate) fn name_from_str(text: &str) -> (r: Option<heapless::String<64>>)
    ensures
        r is Some <==> text.spec_bytes().len() <= 64,
        r is Some ==> name_bytes(r->Some_0) == text.spec_bytes(),
{
    heapless::String::try_from(text).ok()
}

/// `heapless::String::from_utf8`: takes the bytes over where they are valid
/// UTF-8, and fails otherwise.
#[verifier::external_body]
pub(crate) fn name_from_utf8(buffer: heapless::Vec<u8, 64>) -> (r: Option<heapless::String<64>>)
    ensures
        r is Some <==> valid_utf8(attribute_bytes(buffer)),
        r is Some ==> name_bytes(r->Some_0) == attribute_bytes(buffer),
{
    heapless::String::from_utf8(buffer).ok()
}

/// `heapless::String::as_str`: the text that the buffer holds.
#[verifier::external_body]
pub(crate) fn name_as_str(name: &heapless::String<64>) -> (r: &str)
    ensures
        r.spec_bytes() == name_bytes(*name),
{
    name.as_str()
}

/// `heapless::Vec::new`: an empty buffer for a name attribute.
#[verifier::external_body]
pub(crate) fn attribute_new() -> (r: heapless::Vec<u8, 64>)
    ensures
        attribute_bytes(r) == Seq::<u8>::empty(),
{
    heapless::Vec::new()
}

/// `heapless::Vec::extend_from_slice`: appends all the bytes where they fit in
/// the capacity, and otherwise fails and leaves the buffer as it was.
#[verifier::external_body]
pub(crate) fn attribute_extend(buffer: &mut heapless::Vec<u8, 64>, bytes: &[u8]) -> (ok: bool)
    ensures
        ok <==> attribute_bytes(*old(buffer)).len() + bytes@.len() <= 64,
        ok ==> attribute_bytes(*final(buffer)) == attribute_bytes(*old(buffer)) + bytes@,
        !ok ==> attribute_bytes(*final(buffer)) == attribute_bytes(*old(buffer)),
{
    buffer.extend_from_slice(bytes).is_ok()
}

/// `heapless::Vec::new`: an empty message buffer.
#[verifier::external_body]
pub(crate) fn message_new() -> (r: heapless::Vec<u8, 146>)
    ensures
        message_bytes(r) == Seq::<u8>::empty(),
{
    heapless::Vec::new()
}

/// `heapless::Vec::resize`: cuts the buffer to the length, or fills it up to the
/// length with copies of the value; fails, and leaves the buffer as it was, where
/// the length is beyond the capacity.
#[verifier::external_body]
pub(crate) fn message_resize(
    buffer: &mut heapless::Vec<u8, 146>,
    len: usize,
    value: u8,
) -> (ok: bool)
    ensures
        ok <==> len <= 146,
        !ok ==> message_bytes(*final(buffer)) == message_bytes(*old(buffer)),
        ok ==> message_bytes(*final(buffer)) == Seq::new(
            len as nat,
            |i: int|
                if i < message_bytes(*old(buffer)).len() {
                    message_bytes(*old(buffer))[i]
                } else {
                    value
                },
        ),
{
    buffer.resize(len, value).is_ok()
}

/// `heapless::Vec::extend_from_slice`: appends all the bytes where they fit in
/// the capacity, and otherwise fails and leaves the buffer as it was.
#[verifier::external_body]
pub(crate) fn message_extend(buffer: &mut heapless::Vec<u8, 146>, bytes: &[u8]) -> (ok: bool)
    ensures
        ok <==> message_bytes(*old(buffer)).len() + bytes@.len() <= 146,
        ok ==> message_bytes(*final(buffer)) == message_bytes(*old(buffer)) + bytes@,
        !ok ==> message_bytes(*final(buffer)) == message_bytes(*old(buffer)),
{
    buffer.extend_from_slice(bytes).is_ok()
}

/// `heapless::Vec::as_slice`: the bytes that the buffer holds.
#[verifier::external_body]
pub(crate) fn message_as_slice(buffer: &heapless::Vec<u8, 146>) -> (r: &[u8])
    ensures
        r@ == message_bytes(*buffer),
{
    buffer.as_slice()
}

} // verus!
