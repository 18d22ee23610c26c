//! Shadowsocks: the check of its configuration and the limits of its datagrams.
use crate::octets::copy_range;
use crate::text::join;
use crate::types::{Endpoint, IoError, IoErrorKind};
use std::str::FromStr;
use vstd::prelude::*;

verus! {

/// A configuration that is refused.
#[derive(Clone, Debug, PartialEq, Eq)]
pub struct ShadowsocksConfigError {
    pub message: String,
}

/// A checked configuration.
pub struct ShadowsocksOutbound {
    pub server_endpoint: Endpoint,
    pub method: String,
    pub password: String,
}

/// Whether a method is known.
pub uninterp spec fn method_known(method: Seq<char>) -> bool;

/// `shadowsocks::crypto::CipherKind::from_str`: whether a method is known is a
/// function of its name.
#[verifier::external_body]
fn knows_method(method: &str) -> (known: bool)
    ensures
        known == method_known(method@),
{
    shadowsocks::crypto::CipherKind::from_str(method).is_ok()
}

/// The text of the error where a password does not fit a method.
pub uninterp spec fn password_error(method: Seq<char>, password: Seq<char>) -> Option<Seq<char>>;

/// `shadowsocks::config::ServerConfig::new`: whether a password fits a known
/// method, and the text of the error where it does not, are a function of both.
/// A name and a port stand for the server's address, which is not looked at.
#[verifier::external_body]
fn check_password(method: &str, password: &str) -> (checked: Result<(), String>)
    requires
        method_known(method@),
    ensures
        checked is Ok <==> password_error(method@, password@) is None,
        checked matches Err(error) ==> password_error(method@, password@) == Some(error@),
{
    let kind = shadowsocks::crypto::CipherKind::from_str(method).expect("a known method");
    shadowsocks::config::ServerConfig::new(("server", 0), password, kind).map(|_| ()).map_err(
        |error| error.to_string(),
    )
}

/// Why a configuration is refused; `None` where it is not.
pub open spec fn config_fault(method: Seq<char>, password: Seq<char>) -> Option<Seq<char>> {
    if !method_known(method) {
        Some("unsupported shadowsocks method `"@ + method + "`"@)
    } else {
        password_error(method, password)
    }
}

impl ShadowsocksOutbound {
    pub fn new(server_endpoint: Endpoint, method: &str, password: &str) -> (made: Result<
        ShadowsocksOutbound,
        ShadowsocksConfigError,
    >)
        ensures
            match config_fault(method@, password@) {
                Some(message) => made matches Err(error) && error.message@ == message,
                None => made matches Ok(outbound) && outbound.server_endpoint == server_endpoint
                    && outbound.method@ == method@ && outbound.password@ == password@,
            },
    {
        if !knows_method(method) {
            let head = join("unsupported shadowsocks method `", method);
            return Err(ShadowsocksConfigError { message: join(head.as_str(), "`") });
        }
        match check_password(method, password) {
            Ok(()) => Ok(
                ShadowsocksOutbound {
                    server_endpoint,
                    method: method.to_string(),
                    password: password.to_string(),
                },
            ),
            Err(message) => Err(ShadowsocksConfigError { message }),
        }
    }
}

/// Why a datagram of `payload` bytes in a packet of `packet` bytes is refused,
/// where `filled` bytes were received and there is room for `room`.
pub open spec fn datagram_fault(
    payload: nat,
    packet: nat,
    filled: nat,
    room: nat,
) -> Option<Seq<char>> {
    if payload > packet || packet > filled {
        Some("shadowsocks UDP payload length exceeds packet buffer"@)
    } else if payload > room {
        Some("shadowsocks UDP payload exceeds relay buffer"@)
    } else {
        None
    }
}

/// The payload of a datagram that was received.
pub fn poll_recv_from(filled: &[u8], payload_len: usize, packet_len: usize, room: usize) -> (payload:
    Result<Vec<u8>, IoError>)
    ensures
        match datagram_fault(
            payload_len as nat,
            packet_len as nat,
            filled@.len(),
            room as nat,
        ) {
            None => payload matches Ok(bytes) && bytes@ == filled@.take(payload_len as int),
            Some(message) => payload matches Err(error) && error.says(
                IoErrorKind::InvalidInput,
                message,
            ),
        },
{
    if payload_len > packet_len || packet_len > filled.len() {
        return Err(
            IoError::new(
                IoErrorKind::InvalidInput,
                "shadowsocks UDP payload length exceeds packet buffer",
            ),
        );
    }
    if payload_len > room {
        return Err(
            IoError::new(
                IoErrorKind::InvalidInput,
                "shadowsocks UDP payload exceeds relay buffer",
            ),
        );
    }
    let payload = copy_range(filled, 0, payload_len);
    assert(payload@ =~= filled@.take(payload_len as int));
    Ok(payload)
}

/// A configuration is accepted where its method is known and its password fits
/// the method.
pub proof fn law_config_accepted(method: Seq<char>, password: Seq<char>)
    ensures
        config_fault(method, password) is None <==> method_known(method) && password_error(
            method,
            password,
        ) is None,
{
}

/// A datagram is given where it lies within its packet, the packet within what
/// was received, and there is room for it.
pub proof fn law_datagram_given(payload: nat, packet: nat, filled: nat, room: nat)
    ensures
        datagram_fault(payload, packet, filled, room) is None <==> payload <= packet && packet
            <= filled && payload <= room,
{
}

} // verus!
