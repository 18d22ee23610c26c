//! Transports: how bytes reach a peer, apart from what they mean.
pub mod config;
pub mod h2_tunnel;
pub mod layered;
pub mod mux_cool;
pub mod shadow_tls;
