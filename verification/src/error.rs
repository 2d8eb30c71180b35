//! The errors that verification reports.

use vstd::prelude::*;

verus! {

/// What is wrong with a field that was located but not understood.
#[derive(Clone, Copy, Debug, PartialEq, Eq, Structural)]
pub enum ParseError {
    /// The field holds data of the wrong form.
    InvalidData,
}

/// Why a certificate or a handshake signature was not accepted.
#[derive(Clone, Copy, Debug, PartialEq, Eq, Structural)]
pub enum TlsError {
    /// The request asks for a mode that is not offered.
    Unimplemented,
    /// A host name is longer than the buffer that keeps it.
    InsufficientSpace,
    /// A certificate chain is larger than the buffer that keeps it.
    OutOfMemory,
    /// A certificate is not valid for its issuer, for the time or for the host.
    InvalidCertificate,
    /// The signature algorithm is not supported.
    InvalidSignatureScheme,
    /// The handshake signature does not verify.
    InvalidSignature,
    /// A message does not fit its encoding buffer.
    EncodeError,
    /// A certificate, a key or a signature is not well formed.
    DecodeError,
    /// A field of a certificate is not well formed.
    ParseError(ParseError),
}

} // verus!
