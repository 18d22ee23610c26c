//! DNS: names and rules, caches, pools of fake addresses, and messages.
pub mod cache;
pub mod fake_ip;
pub mod model;
pub mod resolver;
pub mod reverse;
pub mod subsystem;
pub mod transport;
pub mod wire;
