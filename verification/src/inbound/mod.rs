//! Services that accept connections and turn them into flows.
pub mod flow;
pub mod http;
pub mod http_laws;
pub mod socks5;
pub mod anytls;
pub mod transparent;
pub mod tun;
