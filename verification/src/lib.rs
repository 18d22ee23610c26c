//! Verified logic of a proxy engine: protocol codecs, DNS policy, traffic
//! inspection, session multiplexing, and the decisions taken by inbound and
//! outbound services.
pub mod address;
pub mod anytls;
pub mod codec;
pub mod crypto;
pub mod dns;
pub mod events;
pub mod inbound;
pub mod inspect;
pub mod octets;
pub mod outbound;
pub mod stack;
pub mod table;
pub mod text;
pub mod transport;
pub mod types;
