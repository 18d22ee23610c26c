//! The server side of AnyTLS: who may connect, and what its streams ask for.
use crate::address::{
    host_bytes, lemma_host_round_trip, read_host, scan_host, HostScan, HostScanModel, Tags,
};
use crate::anytls::uot::{
    address_bytes, address_fits, packet_bytes, tags, uot_is_sentinel_destination, V2_MAGIC_ADDRESS,
};
use crate::crypto::{sha256, sha256_digest};
use crate::inbound::flow::{
    after, endpoint_view, flow_id, FlowIds, FlowModel, InboundFlow, Lifecycle,
};
use crate::inspect::enrich::FlowMeta;
use crate::octets::{
    be16, be16_bytes, byte_views, copy_range, lemma_be16_round_trip, push_all, read_be16,
    same_bytes,
};
use crate::outbound::anytls::{
    datagram_opening, encode_uot_datagram, hashed, scan_datagram, AnyTlsDatagram, DatagramModel,
};
use crate::text::{decimal, decimal_text, join, utf8, utf8_error};
use crate::transport::layered::{
    alpn_bytes, check_identity, identity_error, pem_certificates, pem_key, read_certificates,
    read_key, KeyFormat, PrivateKey,
};
use crate::types::{
    Endpoint, EndpointModel, Host, HostModel, IoError, IoErrorKind, IpModel, Network, ServiceError,
    StreamError, StreamErrorKind,
};
use vstd::prelude::*;
use vstd::slice::slice_subrange;

verus! {

/// The configuration of a server.
#[derive(Clone, Debug, PartialEq, Eq)]
pub struct AnyTlsServerConfig {
    pub password: String,
    pub certificate_pem: String,
    pub private_key_pem: String,
    pub alpn: Vec<String>,
}

/// Why a configuration is refused.
#[derive(Clone, Debug, PartialEq, Eq)]
pub struct AnyTlsInboundConfigError {
    pub message: String,
}

/// What a TLS server is built from.
pub struct ServerParts {
    pub certificates: Vec<Vec<u8>>,
    pub key: PrivateKey,
    /// The protocols accepted, as bytes.
    pub alpn: Vec<Vec<u8>>,
}

/// The same over plain values.
#[verifier::ext_equal]
pub struct ServerPartsModel {
    pub certificates: Seq<Seq<u8>>,
    pub format: KeyFormat,
    pub der: Seq<u8>,
    pub alpn: Seq<Seq<u8>>,
}

impl View for ServerParts {
    type V = ServerPartsModel;

    open spec fn view(&self) -> ServerPartsModel {
        ServerPartsModel {
            certificates: byte_views(self.certificates@),
            format: self.key.format,
            der: self.key.der@,
            alpn: byte_views(self.alpn@),
        }
    }
}

/// What a TLS server is built from, or why it cannot be.
pub open spec fn server_parts(certificate: Seq<u8>, key: Seq<u8>, alpn: Seq<Seq<u8>>) -> Result<
    ServerPartsModel,
    Seq<char>,
> {
    match pem_certificates(certificate) {
        Err(error) => Err("read AnyTLS certificate: "@ + error),
        Ok(certificates) => match pem_key(key) {
            Err(error) => Err("read AnyTLS private key: "@ + error),
            Ok(None) => Err("AnyTLS private key is missing"@),
            Ok(Some((format, der))) => match identity_error(certificates, format, der) {
                Some(error) => Err("build AnyTLS server TLS config: "@ + error),
                None => Ok(ServerPartsModel { certificates, format, der, alpn }),
            },
        },
    }
}

/// Checks the TLS part of a configuration and gives what a server is built from.
pub fn server_tls_config(config: &AnyTlsServerConfig) -> (parts: Result<
    ServerParts,
    AnyTlsInboundConfigError,
>)
    ensures
        match server_parts(
            utf8(config.certificate_pem@),
            utf8(config.private_key_pem@),
            alpn_bytes(config.alpn@),
        ) {
            Ok(model) => parts matches Ok(parts) && parts@ == model,
            Err(message) => parts matches Err(error) && error.message@ == message,
        },
{
    let certificates = match read_certificates(config.certificate_pem.as_str().as_bytes()) {
        Ok(certificates) => certificates,
        Err(error) => return Err(
            AnyTlsInboundConfigError {
                message: join("read AnyTLS certificate: ", error.as_str()),
            },
        ),
    };
    let key = match read_key(config.private_key_pem.as_str().as_bytes()) {
        Ok(Some(key)) => key,
        Ok(None) => return Err(
            AnyTlsInboundConfigError { message: String::from("AnyTLS private key is missing") },
        ),
        Err(error) => return Err(
            AnyTlsInboundConfigError {
                message: join("read AnyTLS private key: ", error.as_str()),
            },
        ),
    };
    match check_identity(&certificates, &key) {
        Ok(()) => {},
        Err(error) => return Err(
            AnyTlsInboundConfigError {
                message: join("build AnyTLS server TLS config: ", error.as_str()),
            },
        ),
    }
    let mut alpn: Vec<Vec<u8>> = Vec::new();
    for i in 0..config.alpn.len()
        invariant
            byte_views(alpn@) =~= alpn_bytes(config.alpn@.take(i as int)),
    {
        let name = config.alpn[i].as_str().as_bytes();
        let ghost before = byte_views(alpn@);
        let copy = copy_range(name, 0, name.len());
        assert(copy@ =~= utf8(config.alpn@[i as int]@));
        alpn.push(copy);
        assert(byte_views(alpn@) =~= before.push(copy@));
        assert(alpn_bytes(config.alpn@.take(i + 1)) =~= alpn_bytes(config.alpn@.take(i as int)).push(
            copy@,
        ));
    }
    assert(config.alpn@.take(config.alpn@.len() as int) =~= config.alpn@);
    Ok(ServerParts { certificates, key, alpn })
}

/// A service that accepts AnyTLS connections.
pub struct AnyTlsInbound {
    pub id: u64,
    pub listen: Endpoint,
    pub tls: ServerParts,
    pub password_hash: [u8; 32],
    pub flow_ids: FlowIds,
    pub lifecycle: Lifecycle,
}

/// What a stream asks for.
pub enum Opening {
    /// A connection.
    Stream(Endpoint),
    /// Datagrams, with the first destination.
    Datagram(Endpoint),
}

/// What stands at the front of a stream.
pub enum OpeningScan {
    /// More bytes are needed.
    Short,
    Bad(StreamError),
    /// What the stream asks for, and how many bytes say so.
    Found(Opening, usize),
}

/// What a stream asks for, over plain values.
pub enum OpenedModel {
    Stream(EndpointModel),
    Datagram(EndpointModel),
}

impl Opening {
    pub open spec fn view(&self) -> OpenedModel {
        match *self {
            Opening::Stream(target) => OpenedModel::Stream(target@),
            Opening::Datagram(target) => OpenedModel::Datagram(target@),
        }
    }
}

/// The flow of a stream: it names a domain where it asks for a stream to one.
pub open spec fn opened_flow(
    id: u64,
    inbound: u64,
    peer: EndpointModel,
    opening: OpenedModel,
) -> FlowModel {
    FlowModel {
        id,
        inbound,
        interface: None,
        network: match opening {
            OpenedModel::Stream(_) => Network::Tcp,
            OpenedModel::Datagram(_) => Network::Udp,
        },
        source: peer,
        destination: match opening {
            OpenedModel::Stream(target) => target,
            OpenedModel::Datagram(target) => target,
        },
        domain: match opening {
            OpenedModel::Stream(target) => if target.host is Domain {
                Some(target.host)
            } else {
                None
            },
            OpenedModel::Datagram(_) => None,
        },
        protocol_hint: None,
    }
}

/// A stream whose opening is being read: what came of it, and its number once
/// it has one.
pub struct PendingStream {
    pub bytes: Vec<u8>,
    pub number: Option<u64>,
}

impl PendingStream {
    pub fn new() -> (stream: PendingStream)
        ensures
            stream.bytes@ == Seq::<u8>::empty(),
            stream.number is None,
    {
        PendingStream { bytes: Vec::new(), number: None }
    }
}

/// What comes of bytes of a stream.
pub enum SubmitStep {
    /// More of the opening is needed.
    More,
    /// The stream is refused.
    Failed(StreamError),
    /// The peer is told that the stream is open, and its flow is handed on.
    Flow(InboundFlow),
}

/// What comes of the bytes of a stream, over plain values.
#[verifier::ext_equal]
pub enum StepModel {
    More,
    Failed,
    Flow(FlowModel),
}

impl SubmitStep {
    pub open spec fn view(&self) -> StepModel {
        match *self {
            SubmitStep::More => StepModel::More,
            SubmitStep::Failed(_) => StepModel::Failed,
            SubmitStep::Flow(flow) => StepModel::Flow(flow@),
        }
    }
}

/// What comes of the bytes of a stream: the step, the number that the stream has
/// after it, what stays with the stream, and the counter of flows.
#[verifier::ext_equal]
pub struct SubmittedModel {
    pub step: StepModel,
    pub number: Option<u64>,
    pub left: Seq<u8>,
    pub next: u64,
}

/// What comes of more bytes of a stream of a service, which has a number or none
/// and of which some bytes came before.
pub open spec fn submitted(
    inbound: u64,
    next: u64,
    number: Option<u64>,
    held: Seq<u8>,
    peer: EndpointModel,
    data: Seq<u8>,
) -> SubmittedModel {
    if data.len() == 0 {
        SubmittedModel { step: StepModel::Failed, number, left: held, next }
    } else {
        let bytes = held + data;
        let numbered = number is None && scan_target(bytes, 0) is Found;
        let given = if numbered {
            Some(flow_id(next))
        } else {
            number
        };
        let (step, left) = match scan_opening(bytes) {
            OpeningModel::Short => (StepModel::More, bytes),
            OpeningModel::Bad(_, _) => (StepModel::Failed, bytes),
            OpeningModel::Stream(target, end) => (
                StepModel::Flow(
                    opened_flow(given->0, inbound, peer, OpenedModel::Stream(target)),
                ),
                bytes.skip(end),
            ),
            OpeningModel::Datagram(target, end) => (
                StepModel::Flow(
                    opened_flow(given->0, inbound, peer, OpenedModel::Datagram(target)),
                ),
                bytes.skip(end),
            ),
        };
        SubmittedModel {
            step,
            number: given,
            left,
            next: if numbered {
                after(next)
            } else {
                next
            },
        }
    }
}

impl AnyTlsInbound {
    pub fn new(id: u64, listen: Endpoint, config: &AnyTlsServerConfig) -> (made: Result<
        AnyTlsInbound,
        AnyTlsInboundConfigError,
    >)
        ensures
            if config.password@.len() == 0 {
                made matches Err(error) && error.message@
                    == "anytls inbound password must not be empty"@
            } else {
                match server_parts(
                    utf8(config.certificate_pem@),
                    utf8(config.private_key_pem@),
                    alpn_bytes(config.alpn@),
                ) {
                    Err(message) => made matches Err(error) && error.message@ == message,
                    Ok(model) => made matches Ok(inbound) && inbound.id == id && inbound.listen
                        == listen && inbound.tls@ == model && inbound.password_hash@
                        == sha256_digest(utf8(config.password@)) && inbound.password_hash@
                        == hashed(config.password@) && inbound.flow_ids.next == 1
                        && !inbound.lifecycle.started && inbound.lifecycle.local_endpoint is None,
                }
            },
    {
        if config.password.as_str().unicode_len() == 0 {
            return Err(
                AnyTlsInboundConfigError {
                    message: String::from("anytls inbound password must not be empty"),
                },
            );
        }
        let tls = match server_tls_config(config) {
            Ok(tls) => tls,
            Err(error) => return Err(error),
        };
        let password_hash = sha256(config.password.as_str().as_bytes());
        Ok(
            AnyTlsInbound {
                id,
                listen,
                tls,
                password_hash,
                flow_ids: FlowIds::new(),
                lifecycle: Lifecycle::new(),
            },
        )
    }

    /// Where the service listens, once it does.
    pub fn local_endpoint(&self) -> (local: Option<Endpoint>)
        ensures
            endpoint_view(local) == endpoint_view(self.lifecycle.local_endpoint),
    {
        self.lifecycle.local_endpoint()
    }

    /// Starts; the service is to listen where it was told to.
    pub fn start(&mut self) -> (done: Result<(), ServiceError>)
        ensures
            *final(self) == (AnyTlsInbound { lifecycle: final(self).lifecycle, ..*old(self) }),
            final(self).lifecycle.started,
            final(self).lifecycle.local_endpoint == old(self).lifecycle.local_endpoint,
            match done {
                Ok(()) => !old(self).lifecycle.started,
                Err(error) => old(self).lifecycle.started && error.message@
                    == "anytls inbound already started"@,
            },
    {
        self.lifecycle.start("anytls inbound already started")
    }

    /// Reads what a client proves itself by.
    pub fn authenticate(&self, bytes: &[u8]) -> (proof_read: Authentication)
        ensures
            proof_read == authentication(self.password_hash@, bytes@),
    {
        let len: usize = bytes.len();
        if len < 32 {
            return Authentication::Short;
        }
        let given = slice_subrange(bytes, 0, 32);
        assert(given@ =~= bytes@.take(32));
        if !same_bytes(given, &self.password_hash) {
            return Authentication::Refused;
        }
        if len < 34 {
            return Authentication::Short;
        }
        let padding: usize = read_be16(bytes, 32) as usize;
        if len - 34 < padding {
            return Authentication::Short;
        }
        Authentication::Accepted(34 + padding)
    }

    /// The flow of a stream that a peer opened, under a number.
    fn flow(&self, id: u64, peer: Endpoint, opening: Opening) -> (flow: InboundFlow)
        ensures
            flow@ == opened_flow(id, self.id, peer@, opening@),
    {
        let (network, destination, domain) = match opening {
            Opening::Stream(target) => {
                let domain = match &target.host {
                    Host::Domain(_) => Some(target.host.duplicate()),
                    Host::Ip(_) => None,
                };
                (Network::Tcp, target, domain)
            },
            Opening::Datagram(target) => (Network::Udp, target, None),
        };
        InboundFlow {
            id,
            inbound: self.id,
            interface: None,
            meta: FlowMeta { network, source: peer, destination, domain, protocol_hint: None },
        }
    }

    /// Takes bytes of a stream that a peer opened; none means that the stream
    /// ended. The stream gets its number as soon as its first target is read,
    /// also where it is refused after that. What follows the opening stays with
    /// the stream.
    pub fn submit(&mut self, stream: &mut PendingStream, peer: Endpoint, data: &[u8]) -> (step:
        SubmitStep)
        ensures
            *final(self) == (AnyTlsInbound { flow_ids: final(self).flow_ids, ..*old(self) }),
            ({
                let bytes = old(stream).bytes@ + data@;
                let numbered = data@.len() > 0 && old(stream).number is None && scan_target(
                    bytes,
                    0,
                ) is Found;
                &&& final(self).flow_ids.next == (if numbered {
                    after(old(self).flow_ids.next)
                } else {
                    old(self).flow_ids.next
                })
                &&& final(stream).number == (if numbered {
                    Some(flow_id(old(self).flow_ids.next))
                } else {
                    old(stream).number
                })
                &&& if data@.len() == 0 {
                    &&& step matches SubmitStep::Failed(error) && error.says(
                        StreamErrorKind::UnexpectedEof,
                        "unexpected end of file"@,
                    )
                    &&& final(stream).bytes@ == old(stream).bytes@
                } else {
                    match scan_opening(bytes) {
                        OpeningModel::Short => {
                            &&& step is More
                            &&& final(stream).bytes@ == bytes
                        },
                        OpeningModel::Bad(kind, message) => {
                            &&& step matches SubmitStep::Failed(error) && error.says(kind, message)
                            &&& final(stream).bytes@ == bytes
                        },
                        OpeningModel::Stream(target, end) => {
                            &&& step matches SubmitStep::Flow(flow) && flow@ == opened_flow(
                                final(stream).number->0,
                                old(self).id,
                                peer@,
                                OpenedModel::Stream(target),
                            )
                            &&& final(stream).bytes@ == bytes.skip(end)
                        },
                        OpeningModel::Datagram(target, end) => {
                            &&& step matches SubmitStep::Flow(flow) && flow@ == opened_flow(
                                final(stream).number->0,
                                old(self).id,
                                peer@,
                                OpenedModel::Datagram(target),
                            )
                            &&& final(stream).bytes@ == bytes.skip(end)
                        },
                    }
                }
            }),
            submitted(
                old(self).id,
                old(self).flow_ids.next,
                old(stream).number,
                old(stream).bytes@,
                peer@,
                data@,
            ) == (SubmittedModel {
                step: step@,
                number: final(stream).number,
                left: final(stream).bytes@,
                next: final(self).flow_ids.next,
            }),
    {
        if data.len() == 0 {
            return SubmitStep::Failed(
                StreamError::new(StreamErrorKind::UnexpectedEof, "unexpected end of file"),
            );
        }
        push_all(&mut stream.bytes, data);
        if stream.number.is_none() {
            match read_socks_target(stream.bytes.as_slice(), 0) {
                TargetScan::Found(_, _) => {
                    stream.number = Some(self.flow_ids.take());
                },
                _ => {},
            }
        }
        match submit_stream(stream.bytes.as_slice()) {
            OpeningScan::Short => SubmitStep::More,
            OpeningScan::Bad(error) => SubmitStep::Failed(error),
            OpeningScan::Found(opening, end) => {
                let rest = copy_range(stream.bytes.as_slice(), end, stream.bytes.len());
                assert(rest@ =~= stream.bytes@.skip(end as int));
                stream.bytes = rest;
                let id: u64 = match stream.number {
                    Some(id) => id,
                    None => 0,
                };
                SubmitStep::Flow(self.flow(id, peer, opening))
            },
        }
    }
}

/// What comes of the bytes that a client proves itself by.
#[derive(Clone, Copy, Debug, PartialEq, Eq)]
pub enum Authentication {
    /// More bytes are needed.
    Short,
    /// The connection is dropped.
    Refused,
    /// The client is who it says; how many bytes said so.
    Accepted(usize),
}

/// The digest of the password, the length of a padding, and the padding.
pub open spec fn authentication(hash: Seq<u8>, bytes: Seq<u8>) -> Authentication {
    if bytes.len() < 32 {
        Authentication::Short
    } else if bytes.take(32) != hash {
        Authentication::Refused
    } else if bytes.len() < 34 || bytes.len() < 34 + be16(bytes[32], bytes[33]) {
        Authentication::Short
    } else {
        Authentication::Accepted((34 + be16(bytes[32], bytes[33])) as usize)
    }
}

/// A client that knows the password is accepted, whatever its padding, and
/// whatever follows is left for the session.
pub proof fn law_authenticated(hash: Seq<u8>, padding: Seq<u8>, after: Seq<u8>)
    requires
        hash.len() == 32,
        padding.len() <= 0xffff,
    ensures
        authentication(hash, hash + be16_bytes(padding.len() as u16) + padding + after)
            == Authentication::Accepted((34 + padding.len()) as usize),
{
    let bytes = hash + be16_bytes(padding.len() as u16) + padding + after;
    lemma_be16_round_trip(padding.len() as u16);
    assert(bytes.take(32) =~= hash);
    assert(bytes[32] == be16_bytes(padding.len() as u16)[0]);
    assert(bytes[33] == be16_bytes(padding.len() as u16)[1]);
}

/// What stands where an address is expected.
pub enum TargetModel {
    Short,
    /// What is said of it.
    Bad(Seq<char>),
    /// The address, and where it ends.
    Found(EndpointModel, int),
}

/// Reads the address that starts at `at`.
pub open spec fn scan_target(bytes: Seq<u8>, at: int) -> TargetModel {
    match scan_host(tags(), bytes, at) {
        HostScanModel::Short => TargetModel::Short,
        HostScanModel::BadText(text) => TargetModel::Bad(utf8_error(text)),
        HostScanModel::Unknown(tag) => TargetModel::Bad(
            "unsupported SOCKS address type "@ + decimal(tag as nat),
        ),
        HostScanModel::Found(host, end) => if bytes.len() < end + 2 {
            TargetModel::Short
        } else {
            TargetModel::Found(
                EndpointModel { host, port: be16(bytes[end], bytes[end + 1]) },
                end + 2,
            )
        },
    }
}

enum TargetScan {
    Short,
    Bad(StreamError),
    Found(Endpoint, usize),
}

fn read_socks_target(bytes: &[u8], at: usize) -> (scan: TargetScan)
    requires
        at <= bytes@.len(),
    ensures
        match scan_target(bytes@, at as int) {
            TargetModel::Short => scan is Short,
            TargetModel::Bad(message) => scan matches TargetScan::Bad(error) && error.says(
                StreamErrorKind::InvalidData,
                message,
            ),
            TargetModel::Found(target, end) => scan matches TargetScan::Found(found, stop)
                && found@ == target && stop == end && end <= bytes@.len(),
        },
{
    match read_host(Tags { v4: 1, domain: 3, v6: 4 }, bytes, at) {
        HostScan::Short => TargetScan::Short,
        HostScan::BadText(message) => TargetScan::Bad(
            StreamError { kind: StreamErrorKind::InvalidData, message },
        ),
        HostScan::Unknown(tag) => {
            let number = decimal_text(tag as u64);
            TargetScan::Bad(
                StreamError {
                    kind: StreamErrorKind::InvalidData,
                    message: join("unsupported SOCKS address type ", number.as_str()),
                },
            )
        },
        HostScan::Found(host, end) => {
            if bytes.len() - end < 2 {
                return TargetScan::Short;
            }
            let port: u16 = read_be16(bytes, end);
            TargetScan::Found(Endpoint::new(host, port), end + 2)
        },
    }
}

/// What a stream asks for, over plain values.
pub enum OpeningModel {
    Short,
    Bad(StreamErrorKind, Seq<char>),
    Stream(EndpointModel, int),
    Datagram(EndpointModel, int),
}

/// Reads what a stream asks for. The destination that stands for datagrams is
/// followed by a mode and the first destination.
pub open spec fn scan_opening(bytes: Seq<u8>) -> OpeningModel {
    match scan_target(bytes, 0) {
        TargetModel::Short => OpeningModel::Short,
        TargetModel::Bad(message) => OpeningModel::Bad(StreamErrorKind::InvalidData, message),
        TargetModel::Found(target, end) => if target.host != HostModel::Domain(V2_MAGIC_ADDRESS@) {
            OpeningModel::Stream(target, end)
        } else if bytes.len() <= end {
            OpeningModel::Short
        } else if bytes[end] != 0 {
            OpeningModel::Bad(
                StreamErrorKind::Unsupported,
                "only AnyTLS UOT datagram mode is supported"@,
            )
        } else {
            match scan_target(bytes, end + 1) {
                TargetModel::Short => OpeningModel::Short,
                TargetModel::Bad(message) => OpeningModel::Bad(
                    StreamErrorKind::InvalidData,
                    message,
                ),
                TargetModel::Found(initial, stop) => OpeningModel::Datagram(initial, stop),
            }
        },
    }
}

/// Reads what a stream asks for.
pub fn submit_stream(bytes: &[u8]) -> (scan: OpeningScan)
    ensures
        match scan_opening(bytes@) {
            OpeningModel::Short => scan is Short,
            OpeningModel::Bad(kind, message) => scan matches OpeningScan::Bad(error) && error.says(
                kind,
                message,
            ),
            OpeningModel::Stream(target, end) => scan matches OpeningScan::Found(
                Opening::Stream(found),
                stop,
            ) && found@ == target && stop == end,
            OpeningModel::Datagram(target, end) => scan matches OpeningScan::Found(
                Opening::Datagram(found),
                stop,
            ) && found@ == target && stop == end,
        },
{
    let (target, end) = match read_socks_target(bytes, 0) {
        TargetScan::Short => return OpeningScan::Short,
        TargetScan::Bad(error) => return OpeningScan::Bad(error),
        TargetScan::Found(target, end) => (target, end),
    };
    if !uot_is_sentinel_destination(&target) {
        return OpeningScan::Found(Opening::Stream(target), end);
    }
    if bytes.len() <= end {
        return OpeningScan::Short;
    }
    if bytes[end] != 0 {
        return OpeningScan::Bad(
            StreamError::new(
                StreamErrorKind::Unsupported,
                "only AnyTLS UOT datagram mode is supported",
            ),
        );
    }
    match read_socks_target(bytes, end + 1) {
        TargetScan::Short => OpeningScan::Short,
        TargetScan::Bad(error) => OpeningScan::Bad(error),
        TargetScan::Found(initial, stop) => OpeningScan::Found(Opening::Datagram(initial), stop),
    }
}

proof fn lemma_target_round_trip(target: EndpointModel, bytes: Seq<u8>, at: int, after: Seq<u8>)
    requires
        address_fits(target),
        target.host.wf(),
        0 <= at <= bytes.len(),
        bytes.skip(at) == address_bytes(target) + after,
    ensures
        scan_target(bytes, at) == TargetModel::Found(target, at + address_bytes(target).len()),
{
    let host = host_bytes(tags(), target.host);
    let rest = be16_bytes(target.port) + after;
    assert(bytes.skip(at) =~= host + rest);
    lemma_host_round_trip(tags(), target.host, bytes, at, rest);
    lemma_be16_round_trip(target.port);
    let end = at + host.len();
    assert(bytes[end] == bytes.skip(at)[host.len() as int]);
    assert(bytes[end + 1] == bytes.skip(at)[host.len() as int + 1]);
    assert(bytes[end] == be16_bytes(target.port)[0]);
    assert(bytes[end + 1] == be16_bytes(target.port)[1]);
}

/// The target that a client writes at the front of a stream is the target that
/// the server reads.
pub proof fn law_stream_target(target: EndpointModel, after: Seq<u8>)
    requires
        address_fits(target),
        target.host.wf(),
        target.host != HostModel::Domain(V2_MAGIC_ADDRESS@),
    ensures
        scan_opening(address_bytes(target) + after) == OpeningModel::Stream(
            target,
            address_bytes(target).len() as int,
        ),
{
    let bytes = address_bytes(target) + after;
    assert(bytes.skip(0) =~= bytes);
    lemma_target_round_trip(target, bytes, 0, after);
}

/// What a client opens a stream for datagrams with asks for datagrams.
pub proof fn law_datagram_opening(after: Seq<u8>)
    ensures
        scan_opening(datagram_opening() + after) == OpeningModel::Datagram(
            EndpointModel {
                host: HostModel::Ip(IpModel::V4(seq![0u8, 0u8, 0u8, 0u8])),
                port: 0,
            },
            datagram_opening().len() as int,
        ),
{
    let sentinel = EndpointModel { host: HostModel::Domain(V2_MAGIC_ADDRESS@), port: 0 };
    reveal_strlit("sp.v2.udp-over-tcp.arpa");
    vstd::utf8::is_ascii_chars_encode_utf8("sp.v2.udp-over-tcp.arpa"@);
    let none = EndpointModel {
        host: HostModel::Ip(IpModel::V4(seq![0u8, 0u8, 0u8, 0u8])),
        port: 0,
    };
    let bytes = datagram_opening() + after;
    let first = address_bytes(sentinel);
    let second = address_bytes(none);
    assert(second =~= seq![1u8, 0u8, 0u8, 0u8, 0u8, 0u8, 0u8]);
    assert(bytes.skip(0) =~= first + (seq![0u8] + second + after));
    lemma_target_round_trip(sentinel, bytes, 0, seq![0u8] + second + after);
    assert(bytes.skip(first.len() as int + 1) =~= second + after);
    lemma_target_round_trip(none, bytes, first.len() as int + 1, after);
}

/// What a failure of a stream is to the rest of the engine.
pub open spec fn io_kind(kind: StreamErrorKind) -> IoErrorKind {
    match kind {
        StreamErrorKind::BrokenPipe => IoErrorKind::Closed,
        StreamErrorKind::UnexpectedEof => IoErrorKind::Closed,
        StreamErrorKind::InvalidInput => IoErrorKind::InvalidInput,
        StreamErrorKind::Unsupported => IoErrorKind::Unsupported,
        _ => IoErrorKind::Other,
    }
}

pub fn io_error(error: StreamError) -> (mapped: IoError)
    ensures
        mapped.says(io_kind(error.kind), error.message@),
{
    let kind = match error.kind {
        StreamErrorKind::BrokenPipe => IoErrorKind::Closed,
        StreamErrorKind::UnexpectedEof => IoErrorKind::Closed,
        StreamErrorKind::InvalidInput => IoErrorKind::InvalidInput,
        StreamErrorKind::Unsupported => IoErrorKind::Unsupported,
        _ => IoErrorKind::Other,
    };
    IoError { kind, message: error.message }
}

/// The datagrams of a stream.
pub struct AnyTlsInboundDatagram {
    pub socket: AnyTlsDatagram,
}

impl AnyTlsInboundDatagram {
    pub fn new() -> (datagram: AnyTlsInboundDatagram)
        ensures
            datagram.socket.pending@ == Seq::<u8>::empty(),
    {
        AnyTlsInboundDatagram { socket: AnyTlsDatagram::new() }
    }

    /// The stream gave some bytes.
    pub fn received(&mut self, bytes: &[u8])
        ensures
            final(self).socket.pending@ == old(self).socket.pending@ + bytes@,
    {
        self.socket.received(bytes);
    }

    /// The next datagram, cut to `room` bytes; `None` where more bytes are
    /// needed.
    pub fn poll_recv_from(&mut self, room: usize) -> (packet: Option<
        Result<(Vec<u8>, Endpoint), IoError>,
    >)
        ensures
            match scan_datagram(old(self).socket.pending@) {
                DatagramModel::Short => packet is None && final(self).socket.pending@ == old(
                    self,
                ).socket.pending@,
                DatagramModel::Bad(message, lost) => {
                    &&& packet matches Some(Err(error)) && error.says(IoErrorKind::Other, message)
                    &&& final(self).socket.pending@ == old(self).socket.pending@.skip(lost)
                },
                DatagramModel::Found(target, payload, end) => {
                    &&& packet matches Some(Ok(found)) && found.1@ == target && found.0@
                        == payload.take(
                        if room < payload.len() {
                            room as int
                        } else {
                            payload.len() as int
                        },
                    )
                    &&& final(self).socket.pending@ == old(self).socket.pending@.skip(end)
                },
            },
    {
        match self.socket.poll_recv_from(room) {
            None => None,
            Some(Ok(packet)) => Some(Ok(packet)),
            Some(Err(error)) => Some(
                Err(IoError { kind: IoErrorKind::Other, message: error.message }),
            ),
        }
    }

    /// A datagram in the frame in which it goes to the client.
    pub fn poll_send_to(payload: &[u8], target: &Endpoint) -> (frame: Result<Vec<u8>, IoError>)
        ensures
            if payload@.len() > 0xffff {
                frame matches Err(error) && error.says(
                    IoErrorKind::InvalidInput,
                    "UOT packet is too large"@,
                )
            } else if !address_fits(target@) {
                frame matches Err(error) && error.says(
                    IoErrorKind::InvalidInput,
                    "anytls target domain exceeds 255 bytes"@,
                )
            } else {
                frame matches Ok(bytes) && bytes@ == packet_bytes(Some(target@), payload@)
            },
    {
        match encode_uot_datagram(target, payload) {
            Ok(frame) => Ok(frame),
            Err(error) => Err(io_error(error)),
        }
    }
}

/// A client is known by the thirty-two bytes of the password's digest, which
/// two bytes for the length of a padding and the padding follow. Other bytes in
/// their place are refused at once, and what breaks off is waited for.
pub proof fn law_authentication(hash: Seq<u8>, bytes: Seq<u8>)
    requires
        hash.len() == 32,
        bytes.len() <= usize::MAX,
    ensures
        bytes.len() < 32 ==> authentication(hash, bytes) is Short,
        bytes.len() >= 32 && bytes.take(32) != hash ==> authentication(hash, bytes) is Refused,
        bytes.len() >= 32 && bytes.take(32) == hash && bytes.len() < 34 ==> authentication(
            hash,
            bytes,
        ) is Short,
        bytes.len() >= 34 && bytes.take(32) == hash ==> {
            let end = 34 + bytes[32] * 256 + bytes[33];
            if bytes.len() < end {
                authentication(hash, bytes) is Short
            } else {
                authentication(hash, bytes) == Authentication::Accepted(end as usize)
            }
        },
{
}

/// A stream that begins with a host by the tags one, three and four and a port
/// asks for that target, unless the host is the name that stands for datagrams:
/// then a mode of zero and a first destination follow, and any other mode is
/// refused.
pub proof fn law_opening(bytes: Seq<u8>, host: HostModel, first: HostModel)
    requires
        host.wf(),
        first.wf(),
        crate::address::spells_host(bytes, 0, 1, 3, 4, host),
        bytes.len() >= crate::address::host_len(host) + 2,
    ensures
        ({
            let end = crate::address::host_len(host);
            let port = (bytes[end] * 256 + bytes[end + 1]) as u16;
            if host != HostModel::Domain("sp.v2.udp-over-tcp.arpa"@) {
                scan_opening(bytes) == OpeningModel::Stream(EndpointModel { host, port }, end + 2)
            } else {
                &&& bytes.len() == end + 2 ==> scan_opening(bytes) is Short
                &&& bytes.len() > end + 2 && bytes[end + 2] != 0 ==> scan_opening(bytes) is Bad
                &&& bytes.len() > end + 2 && bytes[end + 2] == 0 && crate::address::spells_host(
                    bytes,
                    end + 3,
                    1,
                    3,
                    4,
                    first,
                ) ==> {
                    let stop = end + 3 + crate::address::host_len(first);
                    if bytes.len() < stop + 2 {
                        scan_opening(bytes) is Short
                    } else {
                        scan_opening(bytes) == OpeningModel::Datagram(
                            EndpointModel {
                                host: first,
                                port: (bytes[stop] * 256 + bytes[stop + 1]) as u16,
                            },
                            stop + 2,
                        )
                    }
                }
            }
        }),
{
    crate::address::law_spelled_host_read(tags(), bytes, 0, host);
    let end = crate::address::host_len(host);
    if bytes.len() > end + 2 && crate::address::spells_host(bytes, end + 3, 1, 3, 4, first) {
        crate::address::law_spelled_host_read(tags(), bytes, end + 3, first);
    }
}

/// A flow goes from the client to the target of its stream: over TCP for a
/// stream, which names the target where that is a name, and over UDP for
/// datagrams, which names none.
pub proof fn law_flow(id: u64, inbound: u64, peer: EndpointModel, target: EndpointModel)
    ensures
        ({
            let stream = opened_flow(id, inbound, peer, OpenedModel::Stream(target));
            let datagrams = opened_flow(id, inbound, peer, OpenedModel::Datagram(target));
            &&& stream.id == id && datagrams.id == id
            &&& stream.inbound == inbound && datagrams.inbound == inbound
            &&& stream.source == peer && datagrams.source == peer
            &&& stream.destination == target && datagrams.destination == target
            &&& stream.network == Network::Tcp && datagrams.network == Network::Udp
            &&& stream.domain == (if target.host is Domain {
                Some(target.host)
            } else {
                None
            })
            &&& datagrams.domain is None
            &&& stream.protocol_hint is None && datagrams.protocol_hint is None
        }),
{
}

/// A server is built where its certificates and its key can be read and belong
/// together; of these and the protocols it is built.
pub proof fn law_server_parts(certificate: Seq<u8>, key: Seq<u8>, alpn: Seq<Seq<u8>>)
    ensures
        server_parts(certificate, key, alpn) is Ok <==> {
            &&& pem_certificates(certificate) is Ok
            &&& pem_key(key) matches Ok(Some((format, der)))
            &&& identity_error(pem_certificates(certificate)->Ok_0, format, der) is None
        },
        server_parts(certificate, key, alpn) matches Ok(parts) ==> {
            &&& pem_certificates(certificate) == Ok::<Seq<Seq<u8>>, Seq<char>>(parts.certificates)
            &&& pem_key(key)->Ok_0 == Some((parts.format, parts.der))
            &&& parts.alpn == alpn
        },
{
}

/// What a client writes to prove itself is accepted by a server with the same
/// password, whatever follows, and refused by one with another.
pub proof fn law_proof_accepted(hash: Seq<u8>, other: Seq<u8>, length: u16, after: Seq<u8>)
    requires
        hash.len() == 32,
        other.len() == 32,
    ensures
        authentication(hash, crate::outbound::anytls::proof_bytes(hash, length) + after)
            == Authentication::Accepted((34 + length) as usize),
        other != hash ==> authentication(
            other,
            crate::outbound::anytls::proof_bytes(hash, length) + after,
        ) is Refused,
{
    let padding = Seq::new(length as nat, |i: int| 0u8);
    law_authenticated(hash, padding, after);
    let bytes = crate::outbound::anytls::proof_bytes(hash, length) + after;
    assert(bytes =~= hash + be16_bytes(length) + padding + after);
    assert(bytes.take(32) =~= hash);
}

/// A stream that broke is closed to the rest of the engine; requests that make no
/// sense are invalid, and what is not supported stays so.
pub proof fn law_io_kinds()
    ensures
        io_kind(StreamErrorKind::BrokenPipe) == IoErrorKind::Closed,
        io_kind(StreamErrorKind::UnexpectedEof) == IoErrorKind::Closed,
        io_kind(StreamErrorKind::InvalidInput) == IoErrorKind::InvalidInput,
        io_kind(StreamErrorKind::Unsupported) == IoErrorKind::Unsupported,
        io_kind(StreamErrorKind::InvalidData) == IoErrorKind::Other,
        io_kind(StreamErrorKind::Interrupted) == IoErrorKind::Other,
        io_kind(StreamErrorKind::TimedOut) == IoErrorKind::Other,
        io_kind(StreamErrorKind::Other) == IoErrorKind::Other,
        io_kind(StreamErrorKind::ConnectionAborted) == IoErrorKind::Other,
        io_kind(StreamErrorKind::ConnectionReset) == IoErrorKind::Other,
{
}

/// A stream whose target a client wrote becomes a flow to that target, from the
/// client, under the next number; what follows the target stays with the stream,
/// and the numbers count on. A stream that ends before is refused and takes no
/// number. A password is known by its SHA-256 digest.
pub proof fn law_stream_submitted(
    inbound: u64,
    next: u64,
    peer: EndpointModel,
    target: EndpointModel,
    rest: Seq<u8>,
    password: Seq<char>,
)
    requires
        0 < next < u64::MAX,
        address_fits(target),
        target.host.wf(),
        target.host != HostModel::Domain("sp.v2.udp-over-tcp.arpa"@),
    ensures
        ({
            let whole = submitted(
                inbound,
                next,
                None,
                Seq::empty(),
                peer,
                address_bytes(target) + rest,
            );
            &&& whole.step matches StepModel::Flow(flow) && flow.id == next && flow.inbound
                == inbound && flow.source == peer && flow.destination == target && flow.network
                == Network::Tcp
            &&& whole.number == Some(next)
            &&& whole.left == rest
            &&& whole.next == next + 1
        }),
        submitted(inbound, next, None, rest, peer, Seq::empty()) == (SubmittedModel {
            step: StepModel::Failed,
            number: None,
            left: rest,
            next,
        }),
        hashed(password) == sha256_digest(utf8(password)),
{
    let bytes = address_bytes(target) + rest;
    assert(Seq::<u8>::empty() + bytes =~= bytes);
    crate::anytls::uot::law_address_layout(target, Seq::empty(), rest);
    assert(Seq::<u8>::empty() + address_bytes(target) + rest =~= bytes);
    law_stream_target(target, rest);
    assert(bytes.skip(address_bytes(target).len() as int) =~= rest);
    assert(bytes.skip(0) =~= bytes);
    lemma_target_round_trip(target, bytes, 0, rest);
}

/// It does not matter in which pieces the opening of a stream comes: while it is
/// too short to tell, the bytes are kept and no number is taken, and what follows
/// them is taken as if all had come at once.
pub proof fn law_opening_pieces(
    inbound: u64,
    next: u64,
    peer: EndpointModel,
    held: Seq<u8>,
    first: Seq<u8>,
    second: Seq<u8>,
)
    requires
        first.len() > 0,
        second.len() > 0,
        scan_opening(held + first) is Short,
        scan_target(held + first, 0) is Short,
    ensures
        ({
            let part = submitted(inbound, next, None, held, peer, first);
            &&& part.step is More
            &&& part.number is None && part.next == next
            &&& submitted(inbound, part.next, part.number, part.left, peer, second) == submitted(
                inbound,
                next,
                None,
                held,
                peer,
                first + second,
            )
        }),
{
    assert(held + (first + second) =~= (held + first) + second);
}

/// A stream takes its number as soon as its first target is there, also where it
/// is refused after that or where more of its opening is to come, and takes no
/// second one.
pub proof fn law_number_taken(
    inbound: u64,
    next: u64,
    peer: EndpointModel,
    held: Seq<u8>,
    data: Seq<u8>,
    number: u64,
)
    requires
        0 < next < u64::MAX,
        data.len() > 0,
        scan_target(held + data, 0) is Found,
    ensures
        submitted(inbound, next, None, held, peer, data).number == Some(next),
        submitted(inbound, next, None, held, peer, data).next == next + 1,
        submitted(inbound, next, Some(number), held, peer, data).number == Some(number),
        submitted(inbound, next, Some(number), held, peer, data).next == next,
{
}

} // verus!
