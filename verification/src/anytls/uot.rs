//! UDP packets within a stream.
use crate::address::{
    host_bytes, host_fits, host_len, law_host_spelled, lemma_host_round_trip, push_host,
    read_host, scan_host, spells_host, HostScan, HostScanModel, Tags,
};
use crate::octets::{
    be16, be16_bytes, copy_range, lemma_be16_round_trip, push_all, push_be16, read_be16,
};
use crate::text::{
    decimal, decimal_text, hexadecimal, hexadecimal_text, join, same_text, utf8_error,
};
use crate::types::{Endpoint, EndpointModel, Host, HostModel, StreamError, StreamErrorKind};
use vstd::prelude::*;

verus! {

/// The destination by which a stream says that it carries packets.
pub const V2_MAGIC_ADDRESS: &'static str = "sp.v2.udp-over-tcp.arpa";

/// The tags of addresses.
pub open spec fn tags() -> Tags {
    Tags { v4: 1, domain: 3, v6: 4 }
}

/// How packets are framed.
#[derive(Clone, Copy, Debug, Default, PartialEq, Eq)]
pub enum UotMode {
    /// Each packet carries its destination.
    #[default]
    Datagram,
    /// Every packet goes to the destination of the request.
    Connected,
}

/// The number of a mode.
pub open spec fn mode_number(mode: UotMode) -> u8 {
    match mode {
        UotMode::Datagram => 0,
        UotMode::Connected => 1,
    }
}

/// The mode with a number.
pub open spec fn mode_of(value: u8) -> Option<UotMode> {
    if value == 0 {
        Some(UotMode::Datagram)
    } else if value == 1 {
        Some(UotMode::Connected)
    } else {
        None
    }
}

impl TryFrom<u8> for UotMode {
    type Error = StreamError;

    fn try_from(value: u8) -> (mode: Result<UotMode, StreamError>)
        ensures
            match mode_of(value) {
                Some(known) => mode == Ok::<UotMode, StreamError>(known),
                None => mode matches Err(error) && error.says(
                    StreamErrorKind::InvalidData,
                    "invalid UOT mode: "@ + decimal(value as nat),
                ),
            },
    {
        match value {
            0 => Ok(UotMode::Datagram),
            1 => Ok(UotMode::Connected),
            other => {
                let number = decimal_text(other as u64);
                Err(
                    StreamError {
                        kind: StreamErrorKind::InvalidData,
                        message: join("invalid UOT mode: ", number.as_str()),
                    },
                )
            },
        }
    }
}

impl vstd::std_specs::convert::TryFromSpecImpl<u8> for UotMode {
    open spec fn obeys_try_from_spec() -> bool {
        false
    }

    open spec fn try_from_spec(value: u8) -> Result<UotMode, StreamError> {
        arbitrary()
    }
}

impl From<UotMode> for u8 {
    fn from(mode: UotMode) -> (number: u8) {
        match mode {
            UotMode::Datagram => 0,
            UotMode::Connected => 1,
        }
    }
}

impl vstd::std_specs::convert::FromSpecImpl<UotMode> for u8 {
    open spec fn obeys_from_spec() -> bool {
        true
    }

    open spec fn from_spec(mode: UotMode) -> u8 {
        mode_number(mode)
    }
}

/// The request that follows the destination of a stream.
#[derive(Clone, Debug)]
pub struct UotRequest {
    pub mode: UotMode,
    pub destination: Endpoint,
}

/// An address on the wire: the host, then the port.
pub open spec fn address_bytes(address: EndpointModel) -> Seq<u8> {
    host_bytes(tags(), address.host) + be16_bytes(address.port)
}

/// Whether an address can be written.
pub open spec fn address_fits(address: EndpointModel) -> bool {
    host_fits(address.host)
}

/// Appends an address.
fn push_address(out: &mut Vec<u8>, address: &Endpoint)
    requires
        address_fits(address@),
    ensures
        final(out)@ == old(out)@ + address_bytes(address@),
{
    let written = push_host(out, Tags { v4: 1, domain: 3, v6: 4 }, &address.host);
    push_be16(out, address.port);
    assert(out@ =~= old(out)@ + address_bytes(address@));
}

impl UotRequest {
    pub fn new(mode: UotMode, destination: Endpoint) -> (request: UotRequest)
        ensures
            request.mode == mode,
            request.destination == destination,
    {
        UotRequest { mode, destination }
    }

    /// The request on the wire.
    pub fn to_bytes(&self) -> (bytes: Vec<u8>)
        requires
            address_fits(self.destination@),
        ensures
            bytes@ == request_bytes(self.mode, self.destination@),
    {
        let mut bytes: Vec<u8> = Vec::new();
        bytes.push(u8::from(self.mode));
        push_address(&mut bytes, &self.destination);
        assert(bytes@ =~= request_bytes(self.mode, self.destination@));
        bytes
    }
}

/// A request on the wire.
pub open spec fn request_bytes(mode: UotMode, destination: EndpointModel) -> Seq<u8> {
    seq![mode_number(mode)] + address_bytes(destination)
}

pub fn uot_sentinel_destination() -> (address: Endpoint)
    ensures
        address@ == (EndpointModel { host: HostModel::Domain(V2_MAGIC_ADDRESS@), port: 0 }),
{
    Endpoint::new(Host::domain(V2_MAGIC_ADDRESS), 0)
}

pub fn uot_is_sentinel_destination(address: &Endpoint) -> (yes: bool)
    ensures
        yes == (address@.host == HostModel::Domain(V2_MAGIC_ADDRESS@)),
{
    match &address.host {
        Host::Domain(domain) => same_text(domain.as_str(), V2_MAGIC_ADDRESS),
        Host::Ip(_) => false,
    }
}

/// What stands at a place where an address is expected.
pub enum AddressScanModel {
    /// More bytes are needed.
    Short,
    /// There is no address; why not.
    Bad(StreamErrorKind, Seq<char>),
    /// An address and where it ends.
    Found(EndpointModel, int),
}

/// Reads the address that starts at `at`.
pub open spec fn scan_address(bytes: Seq<u8>, at: int) -> AddressScanModel {
    match scan_host(tags(), bytes, at) {
        HostScanModel::Short => AddressScanModel::Short,
        HostScanModel::BadText(name) => if bytes.len() < at + 2 + name.len() + 2 {
            AddressScanModel::Short
        } else {
            AddressScanModel::Bad(
                StreamErrorKind::InvalidData,
                "Invalid address encoding: "@ + utf8_error(name),
            )
        },
        HostScanModel::Unknown(tag) => AddressScanModel::Bad(
            StreamErrorKind::InvalidInput,
            "Unsupported address type code 0x"@ + hexadecimal(tag),
        ),
        HostScanModel::Found(host, end) => if bytes.len() < end + 2 {
            AddressScanModel::Short
        } else {
            AddressScanModel::Found(
                EndpointModel { host, port: be16(bytes[end], bytes[end + 1]) },
                end + 2,
            )
        },
    }
}

/// What [`read_address`] found.
enum AddressScan {
    Short,
    Bad(StreamError),
    Found(Endpoint, usize),
}

fn read_address(bytes: &[u8], at: usize) -> (scan: AddressScan)
    requires
        at <= bytes@.len(),
    ensures
        match scan_address(bytes@, at as int) {
            AddressScanModel::Short => scan is Short,
            AddressScanModel::Bad(kind, message) => scan matches AddressScan::Bad(error)
                && error.says(kind, message),
            AddressScanModel::Found(address, end) => scan matches AddressScan::Found(found, stop)
                && found@ == address && stop == end && end <= bytes@.len(),
        },
{
    match read_host(Tags { v4: 1, domain: 3, v6: 4 }, bytes, at) {
        HostScan::Short => AddressScan::Short,
        HostScan::BadText(error) => {
            if bytes.len() - at < 4 || bytes.len() - at - 4 < bytes[at + 1] as usize {
                return AddressScan::Short;
            }
            AddressScan::Bad(
                StreamError {
                    kind: StreamErrorKind::InvalidData,
                    message: join("Invalid address encoding: ", error.as_str()),
                },
            )
        },
        HostScan::Unknown(tag) => {
            let code = hexadecimal_text(tag);
            AddressScan::Bad(
                StreamError {
                    kind: StreamErrorKind::InvalidInput,
                    message: join("Unsupported address type code 0x", code.as_str()),
                },
            )
        },
        HostScan::Found(host, end) => {
            if bytes.len() - end < 2 {
                return AddressScan::Short;
            }
            let port: u16 = read_be16(bytes, end);
            AddressScan::Found(Endpoint::new(host, port), end + 2)
        },
    }
}

/// What a stream begins with.
pub enum UotScan<T> {
    /// More bytes are needed.
    Short,
    /// The bytes are refused.
    Bad(StreamError),
    /// What stands there, and how many bytes it takes.
    Found(T, usize),
}

/// Reads a request off the front of a stream.
pub fn uot_get_request_from_stream(bytes: &[u8]) -> (scan: UotScan<UotRequest>)
    ensures
        if bytes@.len() == 0 {
            scan is Short
        } else {
            match mode_of(bytes@[0]) {
                None => scan matches UotScan::Bad(error) && error.says(
                    StreamErrorKind::InvalidData,
                    "invalid UOT mode: "@ + decimal(bytes@[0] as nat),
                ),
                Some(mode) => match scan_address(bytes@, 1) {
                    AddressScanModel::Short => scan is Short,
                    AddressScanModel::Bad(kind, message) => scan matches UotScan::Bad(error)
                        && error.says(kind, message),
                    AddressScanModel::Found(address, end) => scan matches UotScan::Found(
                        request,
                        taken,
                    ) && request.mode == mode && request.destination@ == address && taken == end,
                },
            }
        },
{
    if bytes.len() == 0 {
        return UotScan::Short;
    }
    let mode = match UotMode::try_from(bytes[0]) {
        Ok(mode) => mode,
        Err(error) => return UotScan::Bad(error),
    };
    match read_address(bytes, 1) {
        AddressScan::Short => UotScan::Short,
        AddressScan::Bad(error) => UotScan::Bad(error),
        AddressScan::Found(address, end) => UotScan::Found(UotRequest::new(mode, address), end),
    }
}

/// A packet on the wire.
pub open spec fn packet_bytes(destination: Option<EndpointModel>, payload: Seq<u8>) -> Seq<u8> {
    (match destination {
        Some(address) => address_bytes(address),
        None => Seq::empty(),
    }) + be16_bytes(payload.len() as u16) + payload
}

/// What an optional endpoint holds.
pub open spec fn target_view(target: Option<Endpoint>) -> Option<EndpointModel> {
    match target {
        Some(target) => Some(target@),
        None => None,
    }
}

/// Why a packet is refused; `None` where it is not.
pub open spec fn packet_fault(
    mode: UotMode,
    destination: Option<EndpointModel>,
    payload: Seq<u8>,
) -> Option<Seq<char>> {
    if payload.len() > 0xffff {
        Some("UOT packet too large"@)
    } else {
        match (mode, destination) {
            (UotMode::Datagram, None) => Some("Datagram mode requires a destination"@),
            (UotMode::Connected, Some(_)) => Some("Connected mode does not allow a destination"@),
            _ => None,
        }
    }
}

/// Frames a packet: in datagram mode with its destination, in connected mode
/// without one.
pub fn uot_encode_packet(mode: UotMode, destination: Option<&Endpoint>, payload: &[u8]) -> (packet:
    Result<Vec<u8>, StreamError>)
    requires
        destination matches Some(target) ==> address_fits(target@),
    ensures
        ({
            let target = match destination {
                Some(target) => Some(target@),
                None => None,
            };
            match packet_fault(mode, target, payload@) {
                None => packet matches Ok(bytes) && bytes@ == packet_bytes(target, payload@),
                Some(message) => packet matches Err(error) && error.says(
                    StreamErrorKind::InvalidInput,
                    message,
                ),
            }
        }),
{
    if payload.len() > 0xffff {
        return Err(StreamError::new(StreamErrorKind::InvalidInput, "UOT packet too large"));
    }
    let mut bytes: Vec<u8> = Vec::new();
    match mode {
        UotMode::Datagram => match destination {
            Some(target) => {
                push_address(&mut bytes, target);
                assert(bytes@ =~= address_bytes(target@));
            },
            None => return Err(
                StreamError::new(
                    StreamErrorKind::InvalidInput,
                    "Datagram mode requires a destination",
                ),
            ),
        },
        UotMode::Connected => {
            if destination.is_some() {
                return Err(
                    StreamError::new(
                        StreamErrorKind::InvalidInput,
                        "Connected mode does not allow a destination",
                    ),
                );
            }
        },
    }
    let ghost head = bytes@;
    push_be16(&mut bytes, payload.len() as u16);
    push_all(&mut bytes, payload);
    assert(bytes@ =~= head + be16_bytes(payload@.len() as u16) + payload@);
    Ok(bytes)
}

/// What a packet at the front of a stream is.
#[verifier::ext_equal]
pub enum PacketScanModel {
    Short,
    /// There is no address; why not.
    Bad(StreamErrorKind, Seq<char>),
    /// The destination, the payload, and how many bytes they take.
    Found(Option<EndpointModel>, Seq<u8>, int),
}

/// The payload that starts with its length at `at`.
pub open spec fn scan_payload(
    bytes: Seq<u8>,
    at: int,
    destination: Option<EndpointModel>,
) -> PacketScanModel {
    if bytes.len() < at + 2 || bytes.len() < at + 2 + be16(bytes[at], bytes[at + 1]) {
        PacketScanModel::Short
    } else {
        let end = at + 2 + be16(bytes[at], bytes[at + 1]);
        PacketScanModel::Found(destination, bytes.subrange(at + 2, end), end)
    }
}

/// Reads the packet at the front of a stream.
pub open spec fn scan_packet(mode: UotMode, bytes: Seq<u8>) -> PacketScanModel {
    match mode {
        UotMode::Connected => scan_payload(bytes, 0, None),
        UotMode::Datagram => match scan_address(bytes, 0) {
            AddressScanModel::Short => PacketScanModel::Short,
            AddressScanModel::Bad(kind, message) => PacketScanModel::Bad(kind, message),
            AddressScanModel::Found(address, end) => scan_payload(bytes, end, Some(address)),
        },
    }
}

/// Reads a packet off the front of a stream.
pub fn uot_get_packet_from_stream(mode: UotMode, bytes: &[u8]) -> (scan: UotScan<
    (Option<Endpoint>, Vec<u8>),
>)
    ensures
        match scan_packet(mode, bytes@) {
            PacketScanModel::Short => scan is Short,
            PacketScanModel::Bad(kind, message) => scan matches UotScan::Bad(error) && error.says(
                kind,
                message,
            ),
            PacketScanModel::Found(destination, payload, end) => scan matches UotScan::Found(
                packet,
                taken,
            ) && target_view(packet.0) == destination && packet.1@ == payload && taken == end,
        },
{
    let (destination, at): (Option<Endpoint>, usize) = match mode {
        UotMode::Connected => (None, 0),
        UotMode::Datagram => match read_address(bytes, 0) {
            AddressScan::Short => return UotScan::Short,
            AddressScan::Bad(error) => return UotScan::Bad(error),
            AddressScan::Found(address, end) => (Some(address), end),
        },
    };
    let left: usize = bytes.len() - at;
    if left < 2 {
        return UotScan::Short;
    }
    let length: usize = read_be16(bytes, at) as usize;
    if left - 2 < length {
        return UotScan::Short;
    }
    let end: usize = at + 2 + length;
    let payload = copy_range(bytes, at + 2, end);
    UotScan::Found((destination, payload), end)
}

proof fn lemma_address_round_trip(address: EndpointModel, bytes: Seq<u8>, at: int, after: Seq<u8>)
    requires
        address_fits(address),
        address.host.wf(),
        0 <= at <= bytes.len(),
        bytes.skip(at) == address_bytes(address) + after,
    ensures
        scan_address(bytes, at) == AddressScanModel::Found(
            address,
            at + address_bytes(address).len(),
        ),
{
    let host = host_bytes(tags(), address.host);
    let rest = be16_bytes(address.port) + after;
    assert(bytes.skip(at) =~= host + rest);
    lemma_host_round_trip(tags(), address.host, bytes, at, rest);
    lemma_be16_round_trip(address.port);
    let end = at + host.len();
    assert(bytes[end] == bytes.skip(at)[host.len() as int]);
    assert(bytes[end + 1] == bytes.skip(at)[host.len() as int + 1]);
    assert(bytes[end] == be16_bytes(address.port)[0]);
    assert(bytes[end + 1] == be16_bytes(address.port)[1]);
}

/// A request that was written is read back, whatever follows it.
pub proof fn law_request_round_trip(mode: UotMode, destination: EndpointModel, after: Seq<u8>)
    requires
        address_fits(destination),
        destination.host.wf(),
    ensures
        ({
            let bytes = request_bytes(mode, destination) + after;
            &&& mode_of(bytes[0]) == Some(mode)
            &&& scan_address(bytes, 1) == AddressScanModel::Found(
                destination,
                request_bytes(mode, destination).len() as int,
            )
        }),
{
    let bytes = request_bytes(mode, destination) + after;
    assert(bytes.skip(1) =~= address_bytes(destination) + after);
    lemma_address_round_trip(destination, bytes, 1, after);
}

/// A packet that was framed is read back, whatever follows it.
pub proof fn law_packet_round_trip(
    mode: UotMode,
    destination: Option<EndpointModel>,
    payload: Seq<u8>,
    after: Seq<u8>,
)
    requires
        packet_fault(mode, destination, payload) is None,
        destination matches Some(target) ==> address_fits(target) && target.host.wf(),
    ensures
        scan_packet(mode, packet_bytes(destination, payload) + after) == PacketScanModel::Found(
            destination,
            payload,
            packet_bytes(destination, payload).len() as int,
        ),
{
    let bytes = packet_bytes(destination, payload) + after;
    let size = payload.len() as u16;
    lemma_be16_round_trip(size);
    let at: int = match destination {
        Some(address) => {
            let rest = be16_bytes(size) + payload + after;
            assert(bytes.skip(0) =~= address_bytes(address) + rest);
            lemma_address_round_trip(address, bytes, 0, rest);
            address_bytes(address).len() as int
        },
        None => 0,
    };
    assert(bytes[at] == be16_bytes(size)[0]);
    assert(bytes[at + 1] == be16_bytes(size)[1]);
    assert(bytes.subrange(at + 2, at + 2 + payload.len()) =~= payload);
}

/// An address on the wire: the host with the tags one, three and four, and the
/// port after it.
pub proof fn law_address_layout(address: EndpointModel, before: Seq<u8>, after: Seq<u8>)
    requires
        address.host.wf(),
        address_fits(address),
    ensures
        ({
            let bytes = before + address_bytes(address) + after;
            let end = before.len() + host_len(address.host);
            &&& address_bytes(address).len() == host_len(address.host) + 2
            &&& spells_host(bytes, before.len() as int, 1, 3, 4, address.host)
            &&& bytes[end] * 256 + bytes[end + 1] == address.port
        }),
{
    let rest = be16_bytes(address.port) + after;
    let bytes = before + address_bytes(address) + after;
    assert(bytes =~= before + host_bytes(tags(), address.host) + rest);
    law_host_spelled(tags(), address.host, before, rest);
    let end = before.len() + host_len(address.host);
    assert(bytes[end] == rest[0] && bytes[end + 1] == rest[1]);
}

/// A request begins with its mode: zero where every packet names its
/// destination, one where they all go to the request's.
pub proof fn law_request_layout(mode: UotMode, destination: EndpointModel)
    requires
        destination.host.wf(),
        address_fits(destination),
    ensures
        request_bytes(mode, destination)[0] == (match mode {
            UotMode::Datagram => 0u8,
            UotMode::Connected => 1u8,
        }),
        request_bytes(mode, destination).skip(1) == address_bytes(destination),
        mode_of(0) == Some(UotMode::Datagram),
        mode_of(1) == Some(UotMode::Connected),
        forall|value: u8| value > 1 ==> #[trigger] mode_of(value) is None,
{
    assert(request_bytes(mode, destination).skip(1) =~= address_bytes(destination));
}

/// A packet is its destination, where it names one, the length of its payload,
/// and the payload. Packets that name a destination are read in the one mode,
/// packets that name none in the other.
pub proof fn law_packet_layout(destination: Option<EndpointModel>, payload: Seq<u8>, after: Seq<u8>)
    requires
        payload.len() <= 0xffff,
        destination matches Some(address) ==> address.host.wf() && address_fits(address),
    ensures
        ({
            let bytes = packet_bytes(destination, payload);
            let at = match destination {
                Some(address) => host_len(address.host) + 2,
                None => 0,
            };
            &&& bytes.len() == at + 2 + payload.len()
            &&& bytes[at] * 256 + bytes[at + 1] == payload.len()
            &&& bytes.skip(at + 2) == payload
            &&& destination matches Some(address) ==> bytes.take(at) == address_bytes(address)
            &&& packet_fault(UotMode::Datagram, destination, payload) is None <==> destination
                is Some
            &&& packet_fault(UotMode::Connected, destination, payload) is None <==> destination
                is None
        }),
{
    let bytes = packet_bytes(destination, payload);
    let at = match destination {
        Some(address) => host_len(address.host) + 2,
        None => 0,
    };
    if let Some(address) = destination {
        law_address_layout(address, Seq::empty(), Seq::empty());
        assert(bytes.take(at) =~= address_bytes(address));
    }
    assert(bytes.skip(at + 2) =~= payload);
    assert(bytes[at] == be16_bytes(payload.len() as u16)[0]);
    assert(bytes[at + 1] == be16_bytes(payload.len() as u16)[1]);
}

/// A packet of more than 65535 bytes is refused.
pub proof fn law_packet_too_large(
    mode: UotMode,
    destination: Option<EndpointModel>,
    payload: Seq<u8>,
)
    requires
        payload.len() > 0xffff,
    ensures
        packet_fault(mode, destination, payload) is Some,
{
}

} // verus!
