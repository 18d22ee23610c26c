//! VMess with authenticated encryption: key derivation, the sealed request
//! header, and records that carry datagrams.
pub mod datagram;
pub mod header;
pub mod kdf;
pub mod outbound;
