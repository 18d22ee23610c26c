//! ShadowTLS as an outbound of its own.
use crate::types::OutboundError;
use vstd::prelude::*;

verus! {

/// Datagrams do not go through ShadowTLS.
pub fn open_datagram() -> (error: OutboundError)
    ensures
        error.message@ == "ShadowTLS is a TCP-only transport"@,
{
    OutboundError::new("ShadowTLS is a TCP-only transport")
}

} // verus!
