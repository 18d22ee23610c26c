//! SOCKS5 upstream: the header of datagrams and where sockets for them are
//! bound.
use crate::address::{
    host_bytes, host_fits, lemma_host_round_trip, read_host, scan_host, HostScan, HostScanModel,
    Tags,
};
use crate::anytls::uot::{address_bytes, tags};
use crate::octets::{be16, be16_bytes, lemma_be16_round_trip, push_all, read_be16};
use crate::outbound::direct::zeros;
use crate::types::{
    Endpoint, EndpointModel, Host, HostModel, IoError, IoErrorKind, IpAddress, IpModel,
    StreamError, StreamErrorKind,
};
use fast_socks5::util::target_addr::TargetAddr;
use std::future::Future;
use std::task::{Context, Poll, Waker};
use vstd::prelude::*;

verus! {

/// A name and a password for the proxy.
#[derive(Clone, Debug, PartialEq, Eq)]
pub struct Socks5Credentials {
    pub username: String,
    pub password: String,
}

/// A proxy and how a client proves itself to it.
pub struct Socks5Outbound {
    pub proxy: Endpoint,
    pub credentials: Option<Socks5Credentials>,
}

impl Socks5Outbound {
    pub fn new(proxy: Endpoint) -> (outbound: Socks5Outbound)
        ensures
            outbound.proxy == proxy,
            outbound.credentials is None,
    {
        Socks5Outbound { proxy, credentials: None }
    }

    pub fn with_credentials(self, credentials: Socks5Credentials) -> (outbound: Socks5Outbound)
        ensures
            outbound.proxy == self.proxy,
            outbound.credentials == Some(credentials),
    {
        Socks5Outbound { proxy: self.proxy, credentials: Some(credentials) }
    }
}

/// The header of a datagram for a target.
pub open spec fn udp_header(target: EndpointModel) -> Seq<u8> {
    seq![0u8, 0u8, 0u8] + address_bytes(target)
}

/// What is said of a name that is too long for a header.
pub uninterp spec fn udp_header_error(host: HostModel) -> Seq<char>;

/// `fast_socks5::new_udp_header`: three zeros and the address; a name of more
/// than 255 bytes is refused with a text that is a function of it.
#[verifier::external_body]
pub(crate) fn new_udp_header(target: &Endpoint) -> (header: Result<Vec<u8>, String>)
    ensures
        header is Ok <==> host_fits(target@.host),
        header matches Ok(bytes) ==> bytes@ == udp_header(target@),
        header matches Err(error) ==> error@ == udp_header_error(target@.host),
{
    let address = match &target.host {
        Host::Ip(IpAddress::V4(octets)) => TargetAddr::Ip((*octets, target.port).into()),
        Host::Ip(IpAddress::V6(octets)) => TargetAddr::Ip((*octets, target.port).into()),
        Host::Domain(domain) => TargetAddr::Domain(domain.clone(), target.port),
    };
    fast_socks5::new_udp_header(address).map_err(|error| error.to_string())
}

/// Where the header of a datagram ends; `None` where there is no header.
pub open spec fn udp_header_end(packet: Seq<u8>) -> Option<int> {
    if packet.len() < 4 || packet[0] != 0 || packet[1] != 0 {
        None
    } else {
        match scan_host(tags(), packet, 3) {
            HostScanModel::Found(_, end) => if packet.len() < end + 2 {
                None
            } else {
                Some(end + 2)
            },
            _ => None,
        }
    }
}

/// What is said of a datagram without a header.
pub uninterp spec fn udp_request_error(packet: Seq<u8>) -> Seq<char>;

/// `fast_socks5::parse_udp_request`: the fragment number, the address as bytes
/// and the payload; a packet without a header is refused with a text that is a
/// function of it. On bytes that are all there it never waits.
#[verifier::external_body]
pub(crate) fn parse_udp_request(packet: &[u8]) -> (request: Result<
    (u8, Vec<u8>, Vec<u8>),
    String,
>)
    ensures
        request is Ok <==> udp_header_end(packet@) is Some,
        request matches Ok(parts) ==> parts.0 == packet@[2],
        request matches Ok(parts) ==> parts.1@ == packet@.subrange(
            3,
            udp_header_end(packet@)->Some_0,
        ),
        request matches Ok(parts) ==> parts.2@ == packet@.skip(udp_header_end(packet@)->Some_0),
        request matches Err(error) ==> error@ == udp_request_error(packet@),
{
    let mut request = Box::pin(fast_socks5::parse_udp_request(packet));
    match request.as_mut().poll(&mut Context::from_waker(Waker::noop())) {
        Poll::Ready(Ok((frag, target, data))) => match target.to_be_bytes() {
            Ok(address) => Ok((frag, address, data.to_vec())),
            Err(error) => Err(error.to_string()),
        },
        Poll::Ready(Err(error)) => Err(error.to_string()),
        Poll::Pending => Err(String::new()),
    }
}

/// A datagram with its header.
pub fn encode_datagram(target: &Endpoint, payload: &[u8]) -> (packet: Result<Vec<u8>, IoError>)
    ensures
        if host_fits(target@.host) {
            packet matches Ok(bytes) && bytes@ == udp_header(target@) + payload@
        } else {
            packet matches Err(error) && error.says(
                IoErrorKind::Other,
                udp_header_error(target@.host),
            )
        },
{
    match new_udp_header(target) {
        Ok(header) => {
            let mut packet = header;
            push_all(&mut packet, payload);
            Ok(packet)
        },
        Err(message) => Err(IoError { kind: IoErrorKind::Other, message }),
    }
}

/// What a datagram is.
#[verifier::ext_equal]
pub enum SocksDatagram {
    /// It has no header.
    NoHeader,
    /// It is a part of another.
    Fragment,
    /// Where it comes from, and what it holds.
    Whole(EndpointModel, Seq<u8>),
}

/// Reads a datagram.
pub open spec fn scan_datagram(packet: Seq<u8>) -> SocksDatagram {
    match udp_header_end(packet) {
        None => SocksDatagram::NoHeader,
        Some(end) => if packet[2] != 0 {
            SocksDatagram::Fragment
        } else {
            match scan_host(tags(), packet, 3) {
                HostScanModel::Found(host, at) => SocksDatagram::Whole(
                    EndpointModel { host, port: be16(packet[at], packet[at + 1]) },
                    packet.skip(end),
                ),
                _ => SocksDatagram::NoHeader,
            }
        },
    }
}

proof fn lemma_scan_shift(packet: Seq<u8>, end: int)
    requires
        scan_host(tags(), packet, 3) matches HostScanModel::Found(_, at) && at + 2 == end && end
            <= packet.len(),
    ensures
        ({
            let address = packet.subrange(3, end);
            match scan_host(tags(), packet, 3) {
                HostScanModel::Found(host, at) => scan_host(tags(), address, 0)
                    == HostScanModel::Found(host, at - 3),
                _ => false,
            }
        }),
{
    let address = packet.subrange(3, end);
    assert(address[0] == packet[3]);
    if packet[3] == 1 {
        assert(address.subrange(1, 5) =~= packet.subrange(4, 8));
    } else if packet[3] == 3 {
        let stop = 5 + packet[4];
        assert(address[1] == packet[4]);
        assert(address.subrange(2, stop - 3) =~= packet.subrange(5, stop));
    } else {
        assert(address.subrange(1, 17) =~= packet.subrange(4, 20));
    }
}

/// The source and the payload of a datagram, where there is room for it.
pub fn decode_datagram(packet: &[u8], room: usize) -> (datagram: Result<
    (Vec<u8>, Endpoint),
    IoError,
>)
    ensures
        match scan_datagram(packet@) {
            SocksDatagram::NoHeader => datagram matches Err(error) && error.says(
                IoErrorKind::Other,
                udp_request_error(packet@),
            ),
            SocksDatagram::Fragment => datagram matches Err(error) && error.says(
                IoErrorKind::Unsupported,
                "SOCKS5 UDP fragmentation is not supported"@,
            ),
            SocksDatagram::Whole(source, payload) => if payload.len() > room {
                datagram matches Err(error) && error.says(
                    IoErrorKind::InvalidInput,
                    "SOCKS5 UDP payload exceeds relay buffer"@,
                )
            } else {
                datagram matches Ok(found) && found.0@ == payload && found.1@ == source
            },
        },
{
    let (frag, address, payload) = match parse_udp_request(packet) {
        Ok(parts) => parts,
        Err(message) => return Err(IoError { kind: IoErrorKind::Other, message }),
    };
    proof {
        lemma_scan_shift(packet@, udp_header_end(packet@)->Some_0);
    }
    if frag != 0 {
        return Err(
            IoError::new(IoErrorKind::Unsupported, "SOCKS5 UDP fragmentation is not supported"),
        );
    }
    if payload.len() > room {
        return Err(
            IoError::new(IoErrorKind::InvalidInput, "SOCKS5 UDP payload exceeds relay buffer"),
        );
    }
    match read_host(Tags { v4: 1, domain: 3, v6: 4 }, address.as_slice(), 0) {
        HostScan::Found(host, end) => {
            let port: u16 = read_be16(address.as_slice(), end);
            Ok((payload, Endpoint::new(host, port)))
        },
        _ => Err(IoError { kind: IoErrorKind::Other, message: String::new() }),
    }
}

/// A datagram that was given a header is read back.
pub proof fn law_datagram_round_trip(target: EndpointModel, payload: Seq<u8>)
    requires
        host_fits(target.host),
        target.host.wf(),
    ensures
        scan_datagram(udp_header(target) + payload) == SocksDatagram::Whole(target, payload),
{
    let packet = udp_header(target) + payload;
    let host = host_bytes(tags(), target.host);
    let rest = be16_bytes(target.port) + payload;
    assert(packet.skip(3) =~= host + rest);
    lemma_host_round_trip(tags(), target.host, packet, 3, rest);
    lemma_be16_round_trip(target.port);
    let end = 3 + host.len() as int;
    assert(packet[end] == be16_bytes(target.port)[0]);
    assert(packet[end + 1] == be16_bytes(target.port)[1]);
    assert(packet.skip(end + 2) =~= payload);
}

/// Where a socket for a target is bound: any address of its family; of version
/// four where the target is a name.
pub fn bind_udp_for_target(target: &Endpoint) -> (bind: Endpoint)
    ensures
        bind@ == (EndpointModel {
            host: match target@.host {
                HostModel::Ip(IpModel::V6(_)) => HostModel::Ip(IpModel::V6(zeros(16))),
                _ => HostModel::Ip(IpModel::V4(zeros(4))),
            },
            port: 0,
        }),
        bind@ == bind_for(target@.host),
{
    let host = match &target.host {
        Host::Ip(IpAddress::V6(_)) => {
            let any = [0u8, 0, 0, 0, 0, 0, 0, 0, 0, 0, 0, 0, 0, 0, 0, 0];
            assert(any@ =~= zeros(16));
            Host::Ip(IpAddress::V6(any))
        },
        _ => {
            let any = [0u8, 0, 0, 0];
            assert(any@ =~= zeros(4));
            Host::Ip(IpAddress::V4(any))
        },
    };
    Endpoint::new(host, 0)
}

/// What a failure of a socket is to the rest of the engine.
pub open spec fn io_kind(kind: StreamErrorKind) -> IoErrorKind {
    match kind {
        StreamErrorKind::BrokenPipe => IoErrorKind::Closed,
        StreamErrorKind::ConnectionAborted => IoErrorKind::Closed,
        StreamErrorKind::UnexpectedEof => IoErrorKind::Closed,
        StreamErrorKind::Interrupted => IoErrorKind::Interrupted,
        StreamErrorKind::InvalidInput => IoErrorKind::InvalidInput,
        StreamErrorKind::Unsupported => IoErrorKind::Unsupported,
        _ => IoErrorKind::Other,
    }
}

pub fn io_error(error: StreamError) -> (mapped: IoError)
    ensures
        mapped.says(io_kind(error.kind), error.message@),
{
    let kind = match error.kind {
        StreamErrorKind::BrokenPipe => IoErrorKind::Closed,
        StreamErrorKind::ConnectionAborted => IoErrorKind::Closed,
        StreamErrorKind::UnexpectedEof => IoErrorKind::Closed,
        StreamErrorKind::Interrupted => IoErrorKind::Interrupted,
        StreamErrorKind::InvalidInput => IoErrorKind::InvalidInput,
        StreamErrorKind::Unsupported => IoErrorKind::Unsupported,
        _ => IoErrorKind::Other,
    };
    IoError { kind, message: error.message }
}

/// A datagram's header: two reserved bytes and the fragment, all zero, and the
/// target with the tags one, three and four and its port.
pub proof fn law_header_layout(target: EndpointModel, payload: Seq<u8>)
    requires
        target.host.wf(),
        host_fits(target.host),
    ensures
        ({
            let bytes = udp_header(target) + payload;
            let end = 3 + crate::address::host_len(target.host);
            &&& udp_header(target).len() == end + 2
            &&& bytes[0] == 0 && bytes[1] == 0 && bytes[2] == 0
            &&& crate::address::spells_host(bytes, 3, 1, 3, 4, target.host)
            &&& bytes[end] * 256 + bytes[end + 1] == target.port
            &&& bytes.skip(end + 2) == payload
        }),
{
    let before = seq![0u8, 0u8, 0u8];
    let bytes = udp_header(target) + payload;
    crate::anytls::uot::law_address_layout(target, before, payload);
    assert(bytes =~= before + address_bytes(target) + payload);
    let end = 3 + crate::address::host_len(target.host);
    assert(bytes.skip(end + 2) =~= payload);
}

/// A datagram with another number for its fragment than zero is one, whatever
/// it carries; without the two reserved zeros it has no header.
pub proof fn law_fragment(packet: Seq<u8>, host: HostModel)
    requires
        host.wf(),
        crate::address::spells_host(packet, 3, 1, 3, 4, host),
        packet.len() >= 3 + crate::address::host_len(host) + 2,
    ensures
        packet[0] != 0 || packet[1] != 0 ==> scan_datagram(packet) is NoHeader,
        packet[0] == 0 && packet[1] == 0 && packet[2] != 0 ==> scan_datagram(packet) is Fragment,
        packet[0] == 0 && packet[1] == 0 && packet[2] == 0 ==> {
            let end = 3 + crate::address::host_len(host);
            scan_datagram(packet) == SocksDatagram::Whole(
                EndpointModel { host, port: (packet[end] * 256 + packet[end + 1]) as u16 },
                packet.skip(end + 2),
            )
        },
{
    crate::address::law_spelled_host_read(tags(), packet, 3, host);
}

/// Where a socket for a target is bound.
pub open spec fn bind_for(target: HostModel) -> EndpointModel {
    EndpointModel {
        host: match target {
            HostModel::Ip(IpModel::V6(_)) => HostModel::Ip(IpModel::V6(zeros(16))),
            _ => HostModel::Ip(IpModel::V4(zeros(4))),
        },
        port: 0,
    }
}

/// A socket is bound to any port of the address that stands for any, of version
/// six for a target of that version and of version four for every other.
pub proof fn law_bind_for(target: HostModel)
    ensures
        bind_for(target).port == 0,
        bind_for(target).host matches HostModel::Ip(ip) && ip.wf() && (ip is V6) == (
        target matches HostModel::Ip(IpModel::V6(_))) && forall|i: int|
            0 <= i < ip.octets().len() ==> #[trigger] ip.octets()[i] == 0,
{
}

/// A socket that broke is closed to the rest of the engine.
pub proof fn law_io_kinds()
    ensures
        io_kind(StreamErrorKind::BrokenPipe) == IoErrorKind::Closed,
        io_kind(StreamErrorKind::ConnectionAborted) == IoErrorKind::Closed,
        io_kind(StreamErrorKind::UnexpectedEof) == IoErrorKind::Closed,
        io_kind(StreamErrorKind::Interrupted) == IoErrorKind::Interrupted,
        io_kind(StreamErrorKind::InvalidInput) == IoErrorKind::InvalidInput,
        io_kind(StreamErrorKind::Unsupported) == IoErrorKind::Unsupported,
        io_kind(StreamErrorKind::ConnectionReset) == IoErrorKind::Other,
        io_kind(StreamErrorKind::InvalidData) == IoErrorKind::Other,
        io_kind(StreamErrorKind::TimedOut) == IoErrorKind::Other,
        io_kind(StreamErrorKind::Other) == IoErrorKind::Other,
{
}

} // verus!
