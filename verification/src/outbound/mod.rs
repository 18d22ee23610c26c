//! Outbound protocols: what is written to a peer and how its answers are read.
pub mod anytls;
pub mod direct;
pub mod frame_writer;
pub mod http;
pub mod hysteria2;
pub mod naive;
pub mod shadowsocks;
pub mod shadowtls;
pub mod socks5;
pub mod tls_name;
pub mod trojan;
pub mod tuic;
pub mod vless;
pub mod vmess;
pub mod wireguard;
