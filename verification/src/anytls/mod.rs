//! AnyTLS: padding schemes, UDP over streams, pipes and sessions.
pub mod client;
pub mod padding;
pub mod pipe;
pub mod session;
pub mod state;
pub mod string_map;
pub mod uot;
