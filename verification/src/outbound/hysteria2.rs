//! Hysteria2: what the client is configured with, and its datagrams.
use crate::octets::copy_range;
use crate::outbound::tls_name::name_view;
use crate::text::join;
use crate::types::{Endpoint, IoError, IoErrorKind, OutboundError};
use vstd::prelude::*;

verus! {

/// The configuration of a Hysteria2 outbound.
#[derive(Clone, Debug, PartialEq, Eq)]
pub struct Hysteria2Config {
    pub server: Endpoint,
    pub password: String,
    pub server_name: Option<String>,
    pub insecure: bool,
    pub up_mbps: u64,
    pub down_mbps: u64,
    pub obfs_password: Option<String>,
    pub hop_ports: Option<String>,
    pub hop_interval_seconds: Option<u64>,
    pub pin_sha256: Option<String>,
    pub ca_pem: Option<String>,
    pub fast_open: bool,
}

/// What the client is built from; what is not configured is empty or zero.
pub struct Hysteria2Client {
    pub server_addr: String,
    pub server_name: String,
    pub auth: String,
    pub insecure: bool,
    pub rx_bps: u64,
    pub tx_bps: u64,
    pub obfs_password: String,
    pub hop_ports: String,
    pub hop_interval_min_secs: u64,
    pub hop_interval_max_secs: u64,
    pub fast_open: bool,
    pub pin_sha256: String,
    pub ca_pem: String,
}

/// Bytes a second for megabits a second; what is too large for the product
/// counts as the largest number.
pub open spec fn bytes_per_second(mbps: u64) -> u64 {
    if mbps * 1_000_000 > u64::MAX {
        (u64::MAX / 8) as u64
    } else {
        (mbps * 1_000_000 / 8) as u64
    }
}

pub fn mbps_to_bytes(value: u64) -> (bytes: u64)
    ensures
        bytes == bytes_per_second(value),
{
    match value.checked_mul(1_000_000) {
        Some(bits) => bits / 8,
        None => u64::MAX / 8,
    }
}

/// A text, or an empty one.
pub open spec fn or_empty(text: Option<Seq<char>>) -> Seq<char> {
    match text {
        Some(text) => text,
        None => Seq::empty(),
    }
}

fn unwrap_text(text: Option<String>) -> (out: String)
    ensures
        out@ == or_empty(name_view(text)),
{
    match text {
        Some(text) => text,
        None => {
            let out = String::new();
            assert(out@ =~= Seq::empty());
            out
        },
    }
}

/// A Hysteria2 client.
pub struct Hysteria2Outbound {
    pub client: Hysteria2Client,
}

impl Hysteria2Outbound {
    /// Checks a configuration; `server_text` is the server in text form.
    pub fn new(config: Hysteria2Config, server_text: String) -> (made: Result<
        Hysteria2Outbound,
        OutboundError,
    >)
        ensures
            match made {
                Err(error) => config.password@.len() == 0 && error.message@
                    == "hysteria2 password must not be empty"@,
                Ok(outbound) => {
                    let interval = match config.hop_interval_seconds {
                        Some(seconds) => seconds,
                        None => 0,
                    };
                    &&& config.password@.len() > 0
                    &&& outbound.client.server_addr == server_text
                    &&& outbound.client.server_name@ == or_empty(name_view(config.server_name))
                    &&& outbound.client.auth == config.password
                    &&& outbound.client.insecure == config.insecure
                    &&& outbound.client.rx_bps == bytes_per_second(config.down_mbps)
                    &&& outbound.client.tx_bps == bytes_per_second(config.up_mbps)
                    &&& outbound.client.obfs_password@ == or_empty(
                        name_view(config.obfs_password),
                    )
                    &&& outbound.client.hop_ports@ == or_empty(name_view(config.hop_ports))
                    &&& outbound.client.hop_interval_min_secs == interval
                    &&& outbound.client.hop_interval_max_secs == interval
                    &&& outbound.client.fast_open == config.fast_open
                    &&& outbound.client.pin_sha256@ == or_empty(name_view(config.pin_sha256))
                    &&& outbound.client.ca_pem@ == or_empty(name_view(config.ca_pem))
                },
            },
            made matches Ok(outbound) ==> is_client_of(outbound.client, config),
    {
        if config.password.as_str().unicode_len() == 0 {
            return Err(OutboundError::new("hysteria2 password must not be empty"));
        }
        let interval: u64 = match config.hop_interval_seconds {
            Some(seconds) => seconds,
            None => 0,
        };
        Ok(
            Hysteria2Outbound {
                client: Hysteria2Client {
                    server_addr: server_text,
                    server_name: unwrap_text(config.server_name),
                    auth: config.password,
                    insecure: config.insecure,
                    rx_bps: mbps_to_bytes(config.down_mbps),
                    tx_bps: mbps_to_bytes(config.up_mbps),
                    obfs_password: unwrap_text(config.obfs_password),
                    hop_ports: unwrap_text(config.hop_ports),
                    hop_interval_min_secs: interval,
                    hop_interval_max_secs: interval,
                    fast_open: config.fast_open,
                    pin_sha256: unwrap_text(config.pin_sha256),
                    ca_pem: unwrap_text(config.ca_pem),
                },
            },
        )
    }
}

/// What the client failed at.
#[derive(Clone, Copy, Debug, PartialEq, Eq)]
pub enum Hysteria2Stage {
    Connect,
    Session,
}

/// The failure of a connection or a session.
pub fn connect_failed(stage: Hysteria2Stage, error: &str) -> (failure: OutboundError)
    ensures
        failure.message@ == match stage {
            Hysteria2Stage::Connect => "hysteria2 TCP connect: "@ + error@,
            Hysteria2Stage::Session => "hysteria2 UDP session: "@ + error@,
        },
{
    match stage {
        Hysteria2Stage::Connect => OutboundError {
            message: join("hysteria2 TCP connect: ", error),
        },
        Hysteria2Stage::Session => OutboundError {
            message: join("hysteria2 UDP session: ", error),
        },
    }
}

/// The failure of a datagram, on its way out where `sending` is set.
pub fn datagram_failed(sending: bool, error: &str) -> (failure: IoError)
    ensures
        failure.says(
            IoErrorKind::Other,
            (if sending {
                "hysteria2 UDP send: "@
            } else {
                "hysteria2 UDP receive: "@
            }) + error@,
        ),
{
    if sending {
        IoError { kind: IoErrorKind::Other, message: join("hysteria2 UDP send: ", error) }
    } else {
        IoError { kind: IoErrorKind::Other, message: join("hysteria2 UDP receive: ", error) }
    }
}

/// What a receive gives of a packet: as much of it as there is room for. Without
/// a packet the session is closed.
pub fn poll_recv_from(
    received: Option<Result<(Vec<u8>, Endpoint), IoError>>,
    room: usize,
) -> (packet: Result<(Vec<u8>, Endpoint), IoError>)
    ensures
        match received {
            Some(Ok((bytes, source))) => packet matches Ok(found) && found.1 == source && found.0@
                == bytes@.take(
                if room < bytes@.len() {
                    room as int
                } else {
                    bytes@.len() as int
                },
            ),
            Some(Err(error)) => packet == Err::<(Vec<u8>, Endpoint), IoError>(error),
            None => packet matches Err(error) && error.says(
                IoErrorKind::Closed,
                "hysteria2 UDP session closed"@,
            ),
        },
{
    match received {
        Some(Ok((bytes, source))) => {
            let count: usize = if room < bytes.len() {
                room
            } else {
                bytes.len()
            };
            let cut = copy_range(bytes.as_slice(), 0, count);
            assert(cut@ =~= bytes@.take(count as int));
            Ok((cut, source))
        },
        Some(Err(error)) => Err(error),
        None => Err(session_closed()),
    }
}

/// The session is closed.
pub fn session_closed() -> (error: IoError)
    ensures
        error.says(IoErrorKind::Closed, "hysteria2 UDP session closed"@),
{
    IoError::new(IoErrorKind::Closed, "hysteria2 UDP session closed")
}

/// A megabit a second is 125000 bytes a second, and no number of megabits is too
/// large.
pub proof fn law_bytes_per_second(mbps: u64)
    ensures
        mbps <= 18_446_744_073_709 ==> bytes_per_second(mbps) == mbps * 125_000,
        mbps > 18_446_744_073_709 ==> bytes_per_second(mbps) == 2_305_843_009_213_693_951,
{
}

/// Whether a client has the rates, the password and the checks of a
/// configuration.
pub open spec fn is_client_of(client: Hysteria2Client, config: Hysteria2Config) -> bool {
    &&& client.auth@ == config.password@
    &&& client.insecure == config.insecure
    &&& client.rx_bps == bytes_per_second(config.down_mbps)
    &&& client.tx_bps == bytes_per_second(config.up_mbps)
    &&& client.server_name@ == or_empty(name_view(config.server_name))
    &&& client.pin_sha256@ == or_empty(name_view(config.pin_sha256))
    &&& client.ca_pem@ == or_empty(name_view(config.ca_pem))
    &&& client.obfs_password@ == or_empty(name_view(config.obfs_password))
    &&& client.hop_ports@ == or_empty(name_view(config.hop_ports))
    &&& client.hop_interval_min_secs == client.hop_interval_max_secs
    &&& client.hop_interval_min_secs == (match config.hop_interval_seconds {
        Some(seconds) => seconds,
        None => 0,
    })
    &&& client.fast_open == config.fast_open
}

/// A client receives at the rate of downloads and sends at that of uploads, each
/// 125000 bytes a second for a megabit; what is configured is taken over, and
/// what is not is empty.
pub proof fn law_client(client: Hysteria2Client, config: Hysteria2Config)
    requires
        is_client_of(client, config),
        config.down_mbps <= 1_000_000,
        config.up_mbps <= 1_000_000,
    ensures
        client.rx_bps == config.down_mbps * 125_000,
        client.tx_bps == config.up_mbps * 125_000,
        client.auth@ == config.password@,
        client.insecure == config.insecure,
        config.server_name matches Some(name) ==> client.server_name@ == name@,
        config.server_name is None ==> client.server_name@.len() == 0,
        config.pin_sha256 matches Some(pin) ==> client.pin_sha256@ == pin@,
        config.ca_pem matches Some(pem) ==> client.ca_pem@ == pem@,
        config.obfs_password matches Some(password) ==> client.obfs_password@ == password@,
        config.hop_ports matches Some(ports) ==> client.hop_ports@ == ports@,
        config.hop_interval_seconds matches Some(seconds) ==> client.hop_interval_min_secs
            == seconds && client.hop_interval_max_secs == seconds,
        client.fast_open == config.fast_open,
{
}

} // verus!
