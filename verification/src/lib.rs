//! Verified X.509 server authentication for TLS 1.3 clients.
//!
//! The crate decides whether a chain of certificates leads from a trusted
//! authority to a server with a given name, and whether that server signed the
//! handshake. Parsing, the name rules and the order of the checks are proved
//! against the contracts on the functions. The cryptographic primitives and the
//! fixed-capacity buffers come from outside crates.

pub mod acceptance_laws;
pub mod algorithm_laws;
pub mod asn1;
pub mod buffers;
pub mod cert_verifier;
pub mod certificate_laws;
pub mod chain;
pub mod crypto;
pub mod der_laws;
pub mod error;
pub mod hostname;
pub mod laws;
pub mod rsa_backend;
pub mod san;
pub mod san_laws;
pub mod server_laws;
pub mod signature;
pub mod time;
pub mod trust_laws;
pub mod verify;
pub mod view_laws;
pub mod x509;
