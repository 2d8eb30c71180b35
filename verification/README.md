# tls_pki

Server authentication for TLS 1.3 clients, verified with Verus: given a trusted
authority and the certificate list of a server, decide whether the list leads to
the authority and names the host, and whether the server signed the handshake.

- `src/hostname.rs`, `src/san.rs`: names, wildcards, Subject Alternative Names
- `src/asn1.rs`, `src/time.rs`, `src/x509.rs`: the certificate grammar
- `src/signature.rs`, `src/rsa_backend.rs`, `src/crypto.rs`: algorithms and
  primitives; RSA in software, through hooks to hardware, or both
- `src/chain.rs`, `src/verify.rs`, `src/cert_verifier.rs`: one certificate, a
  chain, a handshake
- `src/laws.rs`, `src/san_laws.rs`, `src/trust_laws.rs`: what holds of all of it
- `src/buffers.rs`: the fixed-capacity buffers of `heapless`
- `app/`: the system clock, running hashes, the hardware hooks and the interface of
  a connection

Functions marked `external_body` call an outside crate. Their contracts are
believed; everything else is proved.
