//! AnyTLS: how a client proves itself, names its targets and frames datagrams.
use crate::address::{
    host_bytes, lemma_host_round_trip, push_host, read_host, scan_host, HostScan, HostScanModel,
    Tags,
};
use crate::anytls::uot::{address_bytes, address_fits, packet_bytes, tags};
use crate::crypto::{sha256, sha256_digest};
use crate::octets::{
    be16, be16_bytes, copy_range, drop_front, lemma_be16_round_trip, push_all, push_be16, read_be16,
};
use crate::outbound::tls_name::{chosen_name, name_view, server_name_fault, tls_server_name};
use crate::text::{decimal, decimal_text, join, utf8, utf8_error};
use crate::types::{
    Endpoint, EndpointModel, HostModel, IoError, IoErrorKind, OutboundError, StreamError,
    StreamErrorKind,
};
use vstd::prelude::*;

verus! {

/// How often idle sessions are looked at, in milliseconds.
pub const IDLE_SESSION_CHECK_INTERVAL: u64 = 5_000;

/// How long a session may be idle, in milliseconds.
pub const IDLE_SESSION_TIMEOUT: u64 = 30_000;

/// The profile of the peers that the protocol is tried with.
pub const SUPPORTED_ANYTLS_PROFILE: &'static str = "canonical-anytls-v2/rustbox-anytls-0.2.3";

/// TLS as an AnyTLS client uses it.
#[derive(Clone, Debug, Default, PartialEq, Eq)]
pub struct AnyTlsTlsConfig {
    pub server_name: Option<String>,
    pub insecure: bool,
    pub alpn: Vec<String>,
}

/// A configuration that is refused.
#[derive(Clone, Debug, PartialEq, Eq)]
pub struct AnyTlsConfigError {
    pub message: String,
}

/// A checked configuration.
pub struct AnyTlsOutbound {
    pub server: Endpoint,
    pub server_name: String,
    pub tls: AnyTlsTlsConfig,
    pub password_hash: [u8; 32],
}

/// Why a configuration is refused; `None` where it is not.
pub open spec fn config_fault(
    host_text: Seq<char>,
    password: Seq<char>,
    configured: Option<Seq<char>>,
) -> Option<Seq<char>> {
    if password.len() == 0 {
        Some("anytls password must not be empty"@)
    } else {
        server_name_fault("anytls"@, chosen_name(configured, host_text))
    }
}

/// A password as both sides know it.
pub open spec fn hashed(password: Seq<char>) -> Seq<u8> {
    sha256_digest(utf8(password))
}

impl AnyTlsOutbound {
    /// Checks a configuration; `host_text` is the server's host in text form.
    pub fn new(server: Endpoint, host_text: &str, password: &str, tls: AnyTlsTlsConfig) -> (made:
        Result<AnyTlsOutbound, AnyTlsConfigError>)
        ensures
            match config_fault(host_text@, password@, name_view(tls.server_name)) {
                Some(fault) => made matches Err(error) && error.message@ == fault,
                None => made matches Ok(outbound) && outbound.server == server && outbound.tls
                    == tls && outbound.server_name@ == chosen_name(
                    name_view(tls.server_name),
                    host_text@,
                ) && outbound.password_hash@ == sha256_digest(utf8(password@))
                    && outbound.password_hash@ == hashed(password@),
            },
    {
        if password.unicode_len() == 0 {
            return Err(
                AnyTlsConfigError { message: String::from("anytls password must not be empty") },
            );
        }
        let server_name = match tls_server_name("anytls", &tls.server_name, host_text) {
            Ok(name) => name,
            Err(message) => return Err(AnyTlsConfigError { message }),
        };
        let password_hash = sha256(password.as_bytes());
        Ok(AnyTlsOutbound { server, server_name, tls, password_hash })
    }

    /// The message by which the client proves itself, padded by the first size
    /// of the scheme's first packet; a size below zero counts as none.
    pub fn authentication(&self, first_size: Option<i32>) -> (message: Result<
        Vec<u8>,
        StreamError,
    >)
        ensures
            match padding_length(first_size) {
                Some(length) => message matches Ok(bytes) && bytes@ == self.password_hash@
                    + be16_bytes(length) + Seq::new(length as nat, |i: int| 0u8),
                None => message matches Err(error) && error.says(
                    StreamErrorKind::InvalidData,
                    "anytls padding is too large"@,
                ),
            },
            message matches Ok(bytes) ==> bytes@ == proof_bytes(
                self.password_hash@,
                padding_length(first_size)->0,
            ),
    {
        let size: i32 = match first_size {
            Some(size) => size,
            None => 0,
        };
        if size > 0xffff {
            return Err(
                StreamError::new(StreamErrorKind::InvalidData, "anytls padding is too large"),
            );
        }
        let length: u16 = if size < 0 {
            0
        } else {
            size as u16
        };
        let mut bytes: Vec<u8> = Vec::new();
        push_all(&mut bytes, &self.password_hash);
        push_be16(&mut bytes, length);
        let ghost head = bytes@;
        for i in 0..length
            invariant
                bytes@ =~= head + Seq::new(i as nat, |j: int| 0u8),
        {
            bytes.push(0);
        }
        assert(bytes@ =~= self.password_hash@ + be16_bytes(length) + Seq::new(
            length as nat,
            |i: int| 0u8,
        ));
        Ok(bytes)
    }
}

/// The message by which a client proves itself: the digest of the password, the
/// length of the padding, and the padding.
pub open spec fn proof_bytes(hash: Seq<u8>, length: u16) -> Seq<u8> {
    hash + be16_bytes(length) + Seq::new(length as nat, |i: int| 0u8)
}

/// How much the proof is padded; `None` where that cannot be written.
pub open spec fn padding_length(first_size: Option<i32>) -> Option<u16> {
    match first_size {
        None => Some(0),
        Some(size) => if size > 0xffff {
            None
        } else if size < 0 {
            Some(0)
        } else {
            Some(size as u16)
        },
    }
}

/// A target at the front of a stream.
pub fn encode_target(target: &Endpoint) -> (encoded: Result<Vec<u8>, OutboundError>)
    ensures
        match encoded {
            Ok(bytes) => address_fits(target@) && bytes@ == address_bytes(target@),
            Err(error) => !address_fits(target@) && error.message@
                == "anytls target domain exceeds 255 bytes"@,
        },
{
    let mut encoded: Vec<u8> = Vec::new();
    if !push_host(&mut encoded, Tags { v4: 1, domain: 3, v6: 4 }, &target.host) {
        return Err(OutboundError::new("anytls target domain exceeds 255 bytes"));
    }
    push_be16(&mut encoded, target.port);
    assert(encoded@ =~= address_bytes(target@));
    Ok(encoded)
}

/// What a stream for datagrams begins with: the destination that says so, the
/// mode, and an address that stands for none.
pub open spec fn datagram_opening() -> Seq<u8> {
    address_bytes(
        EndpointModel {
            host: HostModel::Domain(crate::anytls::uot::V2_MAGIC_ADDRESS@),
            port: 0,
        },
    ) + seq![0u8, 1u8, 0u8, 0u8, 0u8, 0u8, 0u8, 0u8]
}

/// The opening of a stream for datagrams: the two messages, in order.
pub fn open_datagram() -> (messages: (Vec<u8>, Vec<u8>))
    ensures
        messages.0@ + messages.1@ == datagram_opening(),
        messages.1@.len() == 8,
{
    let sentinel = crate::anytls::uot::uot_sentinel_destination();
    proof {
        reveal_strlit("sp.v2.udp-over-tcp.arpa");
        vstd::utf8::is_ascii_chars_encode_utf8("sp.v2.udp-over-tcp.arpa"@);
    }
    let mut first: Vec<u8> = Vec::new();
    let written = push_host(&mut first, Tags { v4: 1, domain: 3, v6: 4 }, &sentinel.host);
    push_be16(&mut first, sentinel.port);
    let mut second: Vec<u8> = Vec::new();
    push_all(&mut second, &[0, 1, 0, 0, 0, 0, 0, 0]);
    assert(first@ + second@ =~= datagram_opening());
    (first, second)
}

/// A datagram in its frame.
pub fn encode_uot_datagram(target: &Endpoint, payload: &[u8]) -> (frame: Result<
    Vec<u8>,
    StreamError,
>)
    ensures
        if payload@.len() > 0xffff {
            frame matches Err(error) && error.says(
                StreamErrorKind::InvalidInput,
                "UOT packet is too large"@,
            )
        } else if !address_fits(target@) {
            frame matches Err(error) && error.says(
                StreamErrorKind::InvalidInput,
                "anytls target domain exceeds 255 bytes"@,
            )
        } else {
            frame matches Ok(bytes) && bytes@ == packet_bytes(Some(target@), payload@)
        },
{
    if payload.len() > 0xffff {
        return Err(StreamError::new(StreamErrorKind::InvalidInput, "UOT packet is too large"));
    }
    let mut frame = match encode_target(target) {
        Ok(frame) => frame,
        Err(error) => return Err(
            StreamError { kind: StreamErrorKind::InvalidInput, message: error.message },
        ),
    };
    let ghost head = frame@;
    push_be16(&mut frame, payload.len() as u16);
    push_all(&mut frame, payload);
    assert(frame@ =~= packet_bytes(Some(target@), payload@));
    Ok(frame)
}

/// What stands at the front of a stream of datagrams.
#[verifier::ext_equal]
pub enum DatagramModel {
    /// More bytes are needed.
    Short,
    /// The bytes make no sense: what is said of them, and how many are lost.
    Bad(Seq<char>, int),
    /// A source, a payload, and how many bytes they take.
    Found(EndpointModel, Seq<u8>, int),
}

/// Reads the datagram at the front of some bytes.
pub open spec fn scan_datagram(bytes: Seq<u8>) -> DatagramModel {
    match scan_host(tags(), bytes, 0) {
        HostScanModel::Short => DatagramModel::Short,
        HostScanModel::BadText(text) => DatagramModel::Bad(utf8_error(text), 2 + text.len() as int),
        HostScanModel::Unknown(tag) => DatagramModel::Bad(
            "unsupported SOCKS address type "@ + decimal(tag as nat),
            1,
        ),
        HostScanModel::Found(host, end) => if bytes.len() < end + 4 || bytes.len() < end + 4
            + be16(bytes[end + 2], bytes[end + 3]) {
            DatagramModel::Short
        } else {
            let stop = end + 4 + be16(bytes[end + 2], bytes[end + 3]);
            DatagramModel::Found(
                EndpointModel { host, port: be16(bytes[end], bytes[end + 1]) },
                bytes.subrange(end + 4, stop),
                stop,
            )
        },
    }
}

/// What was received: nothing yet, a failure, or a payload and its endpoint.
pub open spec fn packet_view(packet: Option<Result<(Vec<u8>, Endpoint), IoError>>) -> Option<
    Option<(Seq<u8>, EndpointModel)>,
> {
    match packet {
        None => None,
        Some(Err(_)) => Some(None),
        Some(Ok((payload, source))) => Some(Some((payload@, source@))),
    }
}

/// What is received of some bytes, with room for `room` of a payload, and what is
/// left of them.
pub open spec fn taken(bytes: Seq<u8>, room: nat) -> (
    Option<Option<(Seq<u8>, EndpointModel)>>,
    Seq<u8>,
) {
    match scan_datagram(bytes) {
        DatagramModel::Short => (None, bytes),
        DatagramModel::Bad(_, lost) => (Some(None), bytes.skip(lost)),
        DatagramModel::Found(source, payload, end) => (
            Some(
                Some(
                    (
                        payload.take(
                            if room < payload.len() {
                                room as int
                            } else {
                                payload.len() as int
                            },
                        ),
                        source,
                    ),
                ),
            ),
            bytes.skip(end),
        ),
    }
}

/// The datagrams of a stream, as its bytes come.
pub struct AnyTlsDatagram {
    pub pending: Vec<u8>,
}

impl AnyTlsDatagram {
    pub fn new() -> (socket: AnyTlsDatagram)
        ensures
            socket.pending@ == Seq::<u8>::empty(),
    {
        AnyTlsDatagram { pending: Vec::new() }
    }

    /// The stream gave some bytes.
    pub fn received(&mut self, bytes: &[u8])
        ensures
            final(self).pending@ == old(self).pending@ + bytes@,
    {
        push_all(&mut self.pending, bytes);
    }

    /// The next datagram, cut to `room` bytes; `None` where more bytes are
    /// needed.
    pub fn poll_recv_from(&mut self, room: usize) -> (packet: Option<
        Result<(Vec<u8>, Endpoint), IoError>,
    >)
        ensures
            match scan_datagram(old(self).pending@) {
                DatagramModel::Short => packet is None && final(self).pending@
                    == old(self).pending@,
                DatagramModel::Bad(message, lost) => {
                    &&& packet matches Some(Err(error)) && error.says(
                        IoErrorKind::InvalidInput,
                        message,
                    )
                    &&& final(self).pending@ == old(self).pending@.skip(lost)
                },
                DatagramModel::Found(source, payload, end) => {
                    &&& packet matches Some(Ok(found)) && found.1@ == source && found.0@
                        == payload.take(
                        if room < payload.len() {
                            room as int
                        } else {
                            payload.len() as int
                        },
                    )
                    &&& final(self).pending@ == old(self).pending@.skip(end)
                },
            },
            (packet_view(packet), final(self).pending@) == taken(old(self).pending@, room as nat),
    {
        let ghost bytes = self.pending@;
        match read_host(Tags { v4: 1, domain: 3, v6: 4 }, self.pending.as_slice(), 0) {
            HostScan::Short => None,
            HostScan::BadText(message) => {
                let lost: usize = 2 + self.pending[1] as usize;
                drop_front(&mut self.pending, lost);
                Some(Err(IoError { kind: IoErrorKind::InvalidInput, message }))
            },
            HostScan::Unknown(tag) => {
                drop_front(&mut self.pending, 1);
                let number = decimal_text(tag as u64);
                Some(
                    Err(
                        IoError {
                            kind: IoErrorKind::InvalidInput,
                            message: join("unsupported SOCKS address type ", number.as_str()),
                        },
                    ),
                )
            },
            HostScan::Found(host, end) => {
                let left: usize = self.pending.len() - end;
                if left < 4 {
                    return None;
                }
                let port: u16 = read_be16(self.pending.as_slice(), end);
                let length: usize = read_be16(self.pending.as_slice(), end + 2) as usize;
                if left - 4 < length {
                    return None;
                }
                let count: usize = if room < length {
                    room
                } else {
                    length
                };
                let payload = copy_range(self.pending.as_slice(), end + 4, end + 4 + count);
                assert(payload@ =~= bytes.subrange(end + 4, end + 4 + length).take(count as int));
                drop_front(&mut self.pending, end + 4 + length);
                Some(Ok((payload, Endpoint::new(host, port))))
            },
        }
    }
}

/// A datagram that was framed is read back, whatever follows it.
pub proof fn law_datagram_round_trip(target: EndpointModel, payload: Seq<u8>, after: Seq<u8>)
    requires
        address_fits(target),
        target.host.wf(),
        payload.len() <= 0xffff,
    ensures
        scan_datagram(packet_bytes(Some(target), payload) + after) == DatagramModel::Found(
            target,
            payload,
            packet_bytes(Some(target), payload).len() as int,
        ),
{
    let bytes = packet_bytes(Some(target), payload) + after;
    let size = payload.len() as u16;
    let host = host_bytes(tags(), target.host);
    let rest = be16_bytes(target.port) + be16_bytes(size) + payload + after;
    assert(bytes.skip(0) =~= host + rest);
    lemma_host_round_trip(tags(), target.host, bytes, 0, rest);
    lemma_be16_round_trip(target.port);
    lemma_be16_round_trip(size);
    let end = host.len() as int;
    assert(bytes[end] == be16_bytes(target.port)[0]);
    assert(bytes[end + 1] == be16_bytes(target.port)[1]);
    assert(bytes[end + 2] == be16_bytes(size)[0]);
    assert(bytes[end + 3] == be16_bytes(size)[1]);
    assert(bytes.subrange(end + 4, end + 4 + payload.len()) =~= payload);
}

/// What a failure of a stream is to the rest of the engine.
pub open spec fn io_kind(kind: StreamErrorKind) -> IoErrorKind {
    match kind {
        StreamErrorKind::BrokenPipe => IoErrorKind::Closed,
        StreamErrorKind::ConnectionAborted => IoErrorKind::Closed,
        StreamErrorKind::ConnectionReset => IoErrorKind::Closed,
        StreamErrorKind::UnexpectedEof => IoErrorKind::Closed,
        StreamErrorKind::Interrupted => IoErrorKind::Interrupted,
        StreamErrorKind::InvalidInput => IoErrorKind::InvalidInput,
        StreamErrorKind::InvalidData => IoErrorKind::InvalidInput,
        StreamErrorKind::Unsupported => IoErrorKind::Unsupported,
        StreamErrorKind::TimedOut => IoErrorKind::Other,
        StreamErrorKind::Other => IoErrorKind::Other,
    }
}

pub fn std_io_error(error: StreamError) -> (mapped: IoError)
    ensures
        mapped.says(io_kind(error.kind), error.message@),
{
    let kind = match error.kind {
        StreamErrorKind::BrokenPipe => IoErrorKind::Closed,
        StreamErrorKind::ConnectionAborted => IoErrorKind::Closed,
        StreamErrorKind::ConnectionReset => IoErrorKind::Closed,
        StreamErrorKind::UnexpectedEof => IoErrorKind::Closed,
        StreamErrorKind::Interrupted => IoErrorKind::Interrupted,
        StreamErrorKind::InvalidInput => IoErrorKind::InvalidInput,
        StreamErrorKind::InvalidData => IoErrorKind::InvalidInput,
        StreamErrorKind::Unsupported => IoErrorKind::Unsupported,
        StreamErrorKind::TimedOut => IoErrorKind::Other,
        StreamErrorKind::Other => IoErrorKind::Other,
    };
    IoError { kind, message: error.message }
}

/// The stream of datagrams ended.
pub fn stream_closed() -> (error: StreamError)
    ensures
        error.says(StreamErrorKind::UnexpectedEof, "anytls stream closed"@),
{
    StreamError::new(StreamErrorKind::UnexpectedEof, "anytls stream closed")
}

/// A stream for datagrams begins with the name that says so and the port zero,
/// the mode zero, and the address 0.0.0.0 with the port zero.
pub proof fn law_opening_layout()
    ensures
        ({
            let bytes = datagram_opening();
            let name = HostModel::Domain("sp.v2.udp-over-tcp.arpa"@);
            let end = crate::address::host_len(name);
            &&& crate::address::spells_host(bytes, 0, 1, 3, 4, name)
            &&& bytes.len() == end + 10
            &&& bytes.skip(end) == seq![0u8, 0u8, 0u8, 1u8, 0u8, 0u8, 0u8, 0u8, 0u8, 0u8]
        }),
{
    let address = EndpointModel {
        host: HostModel::Domain(crate::anytls::uot::V2_MAGIC_ADDRESS@),
        port: 0,
    };
    reveal_strlit("sp.v2.udp-over-tcp.arpa");
    let rest = seq![0u8, 1u8, 0u8, 0u8, 0u8, 0u8, 0u8, 0u8];
    let name = "sp.v2.udp-over-tcp.arpa"@;
    vstd::utf8::is_ascii_chars_encode_utf8(name);
    crate::anytls::uot::law_address_layout(address, Seq::empty(), rest);
    assert(Seq::<u8>::empty() + address_bytes(address) + rest =~= datagram_opening());
    let end = crate::address::host_len(address.host);
    let bytes = datagram_opening();
    assert(bytes[end] * 256 + bytes[end + 1] == 0);
    assert(bytes.skip(end) =~= seq![0u8, 0u8] + rest);
    assert(seq![0u8, 0u8] + rest =~= seq![0u8, 0u8, 0u8, 1u8, 0u8, 0u8, 0u8, 0u8, 0u8, 0u8]);
}

/// The first size of the padding is how much the proof is padded: nothing where
/// there is none or it is negative, and what two bytes can count at most.
pub proof fn law_padding_length(size: i32)
    ensures
        padding_length(None) == Some(0u16),
        size < 0 ==> padding_length(Some(size)) == Some(0u16),
        0 <= size <= 65535 ==> padding_length(Some(size)) == Some(size as u16),
        size > 65535 ==> padding_length(Some(size)) is None,
{
}

/// A configuration is accepted where it has a password and a name that a server
/// can have.
pub proof fn law_config_accepted(
    host_text: Seq<char>,
    password: Seq<char>,
    configured: Option<Seq<char>>,
)
    ensures
        config_fault(host_text, password, configured) is None ==> password.len() > 0,
        password.len() > 0 ==> (config_fault(host_text, password, configured) is None
            <==> crate::crypto::server_name_error(
            match configured {
                Some(name) => name,
                None => host_text,
            },
        ) is None),
{
}

/// Idle sessions are looked for every five seconds and closed after thirty.
pub proof fn law_idle_times()
    ensures
        IDLE_SESSION_CHECK_INTERVAL == 5_000,
        IDLE_SESSION_TIMEOUT == 30_000,
{
}

/// A stream that broke is closed to the rest of the engine; data and requests
/// that make no sense are invalid, and what is not supported stays so.
pub proof fn law_io_kinds()
    ensures
        io_kind(StreamErrorKind::BrokenPipe) == IoErrorKind::Closed,
        io_kind(StreamErrorKind::ConnectionAborted) == IoErrorKind::Closed,
        io_kind(StreamErrorKind::ConnectionReset) == IoErrorKind::Closed,
        io_kind(StreamErrorKind::UnexpectedEof) == IoErrorKind::Closed,
        io_kind(StreamErrorKind::Interrupted) == IoErrorKind::Interrupted,
        io_kind(StreamErrorKind::InvalidInput) == IoErrorKind::InvalidInput,
        io_kind(StreamErrorKind::InvalidData) == IoErrorKind::InvalidInput,
        io_kind(StreamErrorKind::Unsupported) == IoErrorKind::Unsupported,
        io_kind(StreamErrorKind::TimedOut) == IoErrorKind::Other,
        io_kind(StreamErrorKind::Other) == IoErrorKind::Other,
{
}

/// A datagram that one side puts into its frame is received by the other with
/// its endpoint, cut to the room that there is, and what follows it is left.
pub proof fn law_received(target: EndpointModel, payload: Seq<u8>, after: Seq<u8>, room: nat)
    requires
        address_fits(target),
        target.host.wf(),
        payload.len() <= 0xffff,
    ensures
        ({
            let (packet, left) = taken(packet_bytes(Some(target), payload) + after, room);
            &&& left == after
            &&& packet matches Some(Some((bytes, source))) && source == target && (payload.len()
                <= room ==> bytes == payload) && (payload.len() > room ==> bytes == payload.take(
                room as int,
            ))
        }),
{
    law_datagram_round_trip(target, payload, after);
    let frame = packet_bytes(Some(target), payload);
    assert((frame + after).skip(frame.len() as int) =~= after);
    assert(payload.take(payload.len() as int) =~= payload);
}

} // verus!
