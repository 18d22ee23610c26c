//! Looking at the first bytes of a flow to learn its protocol and its domain.
pub mod enrich;
pub mod observe;
pub mod protocol;
