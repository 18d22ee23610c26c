//! Codecs without a runtime.
pub mod socks5;
