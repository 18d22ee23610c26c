//! Packets that become flows: how a packet stack is set up, what is made of
//! what it accepts, and echo requests.
use crate::inbound::flow::{after, flow_id, FlowIds, FlowModel, InboundFlow};
use crate::inspect::enrich::FlowMeta;
use crate::octets::{be16, be16_bytes, lemma_be16_bytes_of, push_all};
use crate::text::join;
use crate::types::{Endpoint, EndpointModel, IpAddress, Network};
use etherparse::{Icmpv4Type, Icmpv6Type};
use vstd::prelude::*;

verus! {

/// The packet size of a stack that was told none.
pub const DEFAULT_MTU: u16 = 1500;

/// The smallest packet size of a stack.
pub const MIN_MTU: usize = 1280;

/// The protocol number of ICMP for version four.
pub const ICMP: u8 = 1;

/// The protocol number of ICMP for version six.
pub const IPV6_ICMP: u8 = 58;

/// A failure of a packet stack.
#[derive(Clone, Debug, PartialEq, Eq)]
pub struct StackError {
    pub message: String,
}

impl StackError {
    pub fn new(message: impl Into<String>) -> (error: StackError)
        ensures
            call_ensures(Into::<String>::into, (message,), error.message),
    {
        StackError { message: message.into() }
    }
}

/// A packet size within limits.
pub open spec fn limited(mtu: usize) -> u16 {
    if mtu < MIN_MTU {
        1280
    } else if mtu > 0xffff {
        0xffff
    } else {
        mtu as u16
    }
}

fn limit(mtu: usize) -> (size: u16)
    ensures
        size == limited(mtu),
{
    if mtu < MIN_MTU {
        1280
    } else if mtu > 0xffff {
        0xffff
    } else {
        mtu as u16
    }
}

/// A stack that turns packets into flows.
pub struct PacketFlowStack {
    pub inbound: u64,
    pub mtu: u16,
    pub interface: Option<String>,
    /// The device that echo requests are sent through.
    pub icmp_interface_index: Option<u32>,
}

impl PacketFlowStack {
    pub fn new(inbound: u64) -> (stack: PacketFlowStack)
        ensures
            stack == (PacketFlowStack {
                inbound,
                mtu: DEFAULT_MTU,
                interface: None,
                icmp_interface_index: None,
            }),
    {
        PacketFlowStack { inbound, mtu: DEFAULT_MTU, interface: None, icmp_interface_index: None }
    }

    /// The packet size, within limits.
    pub fn with_mtu(self, mtu: usize) -> (stack: PacketFlowStack)
        ensures
            stack == (PacketFlowStack {
                mtu: limited(mtu),
                ..self
            }),
    {
        PacketFlowStack {
            inbound: self.inbound,
            mtu: limit(mtu),
            interface: self.interface,
            icmp_interface_index: self.icmp_interface_index,
        }
    }

    pub fn with_interface(self, interface: Option<String>) -> (stack: PacketFlowStack)
        ensures
            stack == (PacketFlowStack { interface, ..self }),
    {
        PacketFlowStack {
            inbound: self.inbound,
            mtu: self.mtu,
            interface,
            icmp_interface_index: self.icmp_interface_index,
        }
    }

    /// The device that echo requests are sent through; zero is none.
    pub fn with_icmp_interface_index(self, index: Option<u32>) -> (stack: PacketFlowStack)
        ensures
            stack == (PacketFlowStack {
                icmp_interface_index: if index == Some(0u32) {
                    None
                } else {
                    index
                },
                ..self
            }),
    {
        let index = match index {
            Some(index) => if index == 0 {
                None
            } else {
                Some(index)
            },
            None => None,
        };
        PacketFlowStack {
            inbound: self.inbound,
            mtu: self.mtu,
            interface: self.interface,
            icmp_interface_index: index,
        }
    }

    /// What is made of what the stack accepted. Echo messages are forwarded
    /// where there is a device for them.
    pub fn accepted(&self, ids: &mut FlowIds, stream: StackStream) -> (action: StackAction)
        ensures
            match flow_of(*self, stream) {
                Some((network, source, destination)) => {
                    &&& final(ids).next == after(old(ids).next)
                    &&& action matches StackAction::Submit(flow) && flow@ == (FlowModel {
                        id: flow_id(old(ids).next),
                        inbound: self.inbound,
                        interface: match self.interface {
                            Some(name) => Some(name@),
                            None => None,
                        },
                        network,
                        source,
                        destination,
                        domain: None,
                        protocol_hint: None,
                    })
                },
                None => {
                    &&& final(ids).next == old(ids).next
                    &&& match stream {
                        StackStream::UnknownTransport(protocol) => if (protocol == ICMP || protocol
                            == IPV6_ICMP) && self.icmp_interface_index is Some {
                            action == StackAction::ForwardEcho(self.icmp_interface_index->Some_0)
                        } else {
                            action matches StackAction::Refuse(error) && error.message@
                                == "unsupported transport packet"@
                        },
                        _ => action matches StackAction::Refuse(error) && error.message@
                            == "unsupported network packet"@,
                    }
                },
            },
            (action@, final(ids).next) == action_of(*self, stream, old(ids).next),
    {
        let (network, source, destination) = match stream {
            StackStream::Tcp(source, destination) => (Network::Tcp, source, destination),
            StackStream::Udp(source, destination) => (Network::Udp, source, destination),
            StackStream::UnknownTransport(protocol) => {
                if protocol == ICMP || protocol == IPV6_ICMP {
                    if let Some(index) = self.icmp_interface_index {
                        return StackAction::ForwardEcho(index);
                    }
                }
                return StackAction::Refuse(StackError::new("unsupported transport packet"));
            },
            StackStream::UnknownNetwork => {
                return StackAction::Refuse(StackError::new("unsupported network packet"));
            },
        };
        let id: u64 = ids.take();
        StackAction::Submit(
            InboundFlow {
                id,
                inbound: self.inbound,
                interface: match &self.interface {
                    Some(name) => Some(name.as_str().to_owned()),
                    None => None,
                },
                meta: FlowMeta { network, source, destination, domain: None, protocol_hint: None },
            },
        )
    }
}

/// What a packet stack accepts, with the source and the destination of what it
/// understands, and the protocol number of what it does not.
pub enum StackStream {
    Tcp(Endpoint, Endpoint),
    Udp(Endpoint, Endpoint),
    UnknownTransport(u8),
    UnknownNetwork,
}

/// What is made of it.
pub enum StackAction {
    Submit(InboundFlow),
    /// The echo request is sent through a device.
    ForwardEcho(u32),
    /// The packet is dropped.
    Refuse(StackError),
}

/// The same over plain values.
#[verifier::ext_equal]
pub enum ActionModel {
    Submit(FlowModel),
    ForwardEcho(u32),
    Refuse,
}

impl StackAction {
    pub open spec fn view(&self) -> ActionModel {
        match *self {
            StackAction::Submit(flow) => ActionModel::Submit(flow@),
            StackAction::ForwardEcho(index) => ActionModel::ForwardEcho(index),
            StackAction::Refuse(_) => ActionModel::Refuse,
        }
    }
}

/// What is made of what a stack accepted, and the counter of flows after it.
pub open spec fn action_of(stack: PacketFlowStack, stream: StackStream, next: u64) -> (
    ActionModel,
    u64,
) {
    match flow_of(stack, stream) {
        Some((network, source, destination)) => (
            ActionModel::Submit(
                FlowModel {
                    id: flow_id(next),
                    inbound: stack.inbound,
                    interface: match stack.interface {
                        Some(name) => Some(name@),
                        None => None,
                    },
                    network,
                    source,
                    destination,
                    domain: None,
                    protocol_hint: None,
                },
            ),
            after(next),
        ),
        None => (
            match (stream, stack.icmp_interface_index) {
                (StackStream::UnknownTransport(protocol), Some(index)) => if protocol == ICMP
                    || protocol == IPV6_ICMP {
                    ActionModel::ForwardEcho(index)
                } else {
                    ActionModel::Refuse
                },
                _ => ActionModel::Refuse,
            },
            next,
        ),
    }
}

/// The flow that an accepted stream becomes, where it becomes one.
pub open spec fn flow_of(stack: PacketFlowStack, stream: StackStream) -> Option<
    (Network, EndpointModel, EndpointModel),
> {
    match stream {
        StackStream::Tcp(source, destination) => Some((Network::Tcp, source@, destination@)),
        StackStream::Udp(source, destination) => Some((Network::Udp, source@, destination@)),
        _ => None,
    }
}

/// What is said of a packet that is no ICMP message.
pub uninterp spec fn icmpv4_error(packet: Seq<u8>) -> Seq<char>;

/// Whether a packet is an ICMP message of version four: it has a header, and a
/// timestamp has its whole length.
pub open spec fn is_icmpv4(packet: Seq<u8>) -> bool {
    &&& packet.len() >= 8
    &&& (packet[0] == 13 || packet[0] == 14) && packet[1] == 0 ==> packet.len() == 20
}

/// The identifier, the sequence number and the payload of an echo request;
/// `kind` is its message type.
pub open spec fn echo_parts(packet: Seq<u8>, kind: u8) -> Option<(u16, u16, Seq<u8>)> {
    if packet[0] == kind && packet[1] == 0 {
        Some((be16(packet[4], packet[5]), be16(packet[6], packet[7]), packet.skip(8)))
    } else {
        None
    }
}

/// The parts that were read.
pub open spec fn parts_view(parts: Option<(u16, u16, Vec<u8>)>) -> Option<(u16, u16, Seq<u8>)> {
    match parts {
        Some((identifier, sequence, payload)) => Some((identifier, sequence, payload@)),
        None => None,
    }
}

/// `etherparse::Icmpv4Header::from_slice`: a packet with a whole header is
/// accepted, and the parts of an echo request stand in it; of another packet
/// the text of the error is a function of it.
#[verifier::external_body]
fn read_icmpv4(packet: &[u8]) -> (message: Result<Option<(u16, u16, Vec<u8>)>, String>)
    ensures
        message is Ok <==> is_icmpv4(packet@),
        message matches Ok(parts) ==> parts_view(parts) == echo_parts(packet@, 8),
        message matches Err(error) ==> error@ == icmpv4_error(packet@),
{
    match etherparse::Icmpv4Header::from_slice(packet) {
        Ok((header, payload)) => match header.icmp_type {
            Icmpv4Type::EchoRequest(echo) => Ok(Some((echo.id, echo.seq, payload.to_vec()))),
            _ => Ok(None),
        },
        Err(error) => Err(error.to_string()),
    }
}

/// What is said of a packet that is no ICMP message of version six.
pub uninterp spec fn icmpv6_error(packet: Seq<u8>) -> Seq<char>;

/// Whether a packet is an ICMP message of version six: it has a header, and its
/// length can be written.
pub open spec fn is_icmpv6(packet: Seq<u8>) -> bool {
    8 <= packet.len() <= u32::MAX
}

/// `etherparse::Icmpv6Header::from_slice`: a packet with a whole header is
/// accepted, and the parts of an echo request stand in it; of another packet
/// the text of the error is a function of it.
#[verifier::external_body]
fn read_icmpv6(packet: &[u8]) -> (message: Result<Option<(u16, u16, Vec<u8>)>, String>)
    ensures
        message is Ok <==> is_icmpv6(packet@),
        message matches Ok(parts) ==> parts_view(parts) == echo_parts(packet@, 128),
        message matches Err(error) ==> error@ == icmpv6_error(packet@),
{
    match etherparse::Icmpv6Header::from_slice(packet) {
        Ok((header, payload)) => match header.icmp_type {
            Icmpv6Type::EchoRequest(echo) => Ok(Some((echo.id, echo.seq, payload.to_vec()))),
            _ => Ok(None),
        },
        Err(error) => Err(error.to_string()),
    }
}

/// The parts of an echo request, or what is wrong with it.
pub open spec fn request_parts(v6: bool, packet: Seq<u8>) -> Result<
    (u16, u16, Seq<u8>),
    Seq<char>,
> {
    if v6 {
        if !is_icmpv6(packet) {
            Err("parse ICMPv6 packet: "@ + icmpv6_error(packet))
        } else {
            match echo_parts(packet, 128) {
                Some(parts) => Ok(parts),
                None => Err("unsupported ICMPv6 control message"@),
            }
        }
    } else {
        if !is_icmpv4(packet) {
            Err("parse ICMPv4 packet: "@ + icmpv4_error(packet))
        } else {
            match echo_parts(packet, 8) {
                Some(parts) => Ok(parts),
                None => Err("unsupported ICMPv4 control message"@),
            }
        }
    }
}

/// Reads an echo request to a destination: its identifier, its sequence number
/// and its payload.
pub fn echo_request(destination: &IpAddress, packet: &[u8]) -> (parts: Result<
    (u16, u16, Vec<u8>),
    StackError,
>)
    ensures
        match request_parts(*destination is V6, packet@) {
            Ok((identifier, sequence, payload)) => parts matches Ok(found) && found.0 == identifier
                && found.1 == sequence && found.2@ == payload,
            Err(message) => parts matches Err(error) && error.message@ == message,
        },
{
    match destination {
        IpAddress::V4(_) => match read_icmpv4(packet) {
            Ok(Some(parts)) => Ok(parts),
            Ok(None) => Err(StackError::new("unsupported ICMPv4 control message")),
            Err(error) => Err(
                StackError { message: join("parse ICMPv4 packet: ", error.as_str()) },
            ),
        },
        IpAddress::V6(_) => match read_icmpv6(packet) {
            Ok(Some(parts)) => Ok(parts),
            Ok(None) => Err(StackError::new("unsupported ICMPv6 control message")),
            Err(error) => Err(
                StackError { message: join("parse ICMPv6 packet: ", error.as_str()) },
            ),
        },
    }
}

/// The checksum of an echo reply of version four.
pub uninterp spec fn icmpv4_checksum(identifier: u16, sequence: u16, payload: Seq<u8>) -> u16;

/// The header of an echo reply of a message type.
pub open spec fn reply_header(kind: u8, checksum: u16, identifier: u16, sequence: u16) -> Seq<u8> {
    seq![kind, 0u8] + be16_bytes(checksum) + be16_bytes(identifier) + be16_bytes(sequence)
}

/// `etherparse::Icmpv4Header::update_checksum` and `to_bytes` of an echo reply:
/// the type, the code, the checksum, which is a function of the arguments, the
/// identifier and the sequence number.
#[verifier::external_body]
fn write_icmpv4(identifier: u16, sequence: u16, payload: &[u8]) -> (header: Vec<u8>)
    ensures
        header@ == reply_header(
            0,
            icmpv4_checksum(identifier, sequence, payload@),
            identifier,
            sequence,
        ),
{
    let echo = etherparse::IcmpEchoHeader { id: identifier, seq: sequence };
    let mut header = etherparse::Icmpv4Header::new(Icmpv4Type::EchoReply(echo));
    header.update_checksum(payload);
    header.to_bytes().to_vec()
}

/// The checksum of an echo reply of version six.
pub uninterp spec fn icmpv6_checksum(
    from: Seq<u8>,
    to: Seq<u8>,
    identifier: u16,
    sequence: u16,
    payload: Seq<u8>,
) -> u16;

/// What is said of a payload that is too long for version six.
pub uninterp spec fn icmpv6_length_error(length: nat) -> Seq<char>;

/// The longest payload of an echo reply of version six.
pub const MAX_ECHO_PAYLOAD: usize = 0xffff_fff7;

/// `etherparse::Icmpv6Header::with_checksum` and `to_bytes` of an echo reply:
/// the type, the code, the checksum, which is a function of the arguments, the
/// identifier and the sequence number. A payload whose length with the header
/// does not fit in 32 bits is refused, with a text that is a function of its
/// length.
#[verifier::external_body]
fn write_icmpv6(
    from: [u8; 16],
    to: [u8; 16],
    identifier: u16,
    sequence: u16,
    payload: &[u8],
) -> (header: Result<Vec<u8>, String>)
    ensures
        header is Ok <==> payload@.len() <= MAX_ECHO_PAYLOAD,
        header matches Ok(bytes) ==> bytes@ == reply_header(
            129,
            icmpv6_checksum(from@, to@, identifier, sequence, payload@),
            identifier,
            sequence,
        ),
        header matches Err(error) ==> error@ == icmpv6_length_error(payload@.len()),
{
    let echo = etherparse::IcmpEchoHeader { id: identifier, seq: sequence };
    let kind = Icmpv6Type::EchoReply(echo);
    match etherparse::Icmpv6Header::with_checksum(kind, from, to, payload) {
        Ok(header) => Ok(header.to_bytes().to_vec()),
        Err(error) => Err(error.to_string()),
    }
}

/// The reply to an echo request, or why there is none. It goes from the
/// destination of the request to its source.
pub open spec fn reply(
    source: IpAddress,
    destination: IpAddress,
    identifier: u16,
    sequence: u16,
    payload: Seq<u8>,
) -> Result<Seq<u8>, Seq<char>> {
    match (source, destination) {
        (IpAddress::V4(_), IpAddress::V4(_)) => Ok(
            reply_header(
                0,
                icmpv4_checksum(identifier, sequence, payload),
                identifier,
                sequence,
            ) + payload,
        ),
        (IpAddress::V6(source), IpAddress::V6(destination)) => if payload.len()
            <= MAX_ECHO_PAYLOAD {
            Ok(
                reply_header(
                    129,
                    icmpv6_checksum(destination@, source@, identifier, sequence, payload),
                    identifier,
                    sequence,
                ) + payload,
            )
        } else {
            Err("build ICMPv6 reply: "@ + icmpv6_length_error(payload.len()))
        },
        _ => Err("ICMP address families differ"@),
    }
}

pub fn build_icmp_echo_reply(
    source: &IpAddress,
    destination: &IpAddress,
    identifier: u16,
    sequence: u16,
    payload: &[u8],
) -> (response: Result<Vec<u8>, StackError>)
    ensures
        match reply(*source, *destination, identifier, sequence, payload@) {
            Ok(bytes) => response matches Ok(found) && found@ == bytes,
            Err(message) => response matches Err(error) && error.message@ == message,
        },
{
    let mut response = match (source, destination) {
        (IpAddress::V4(_), IpAddress::V4(_)) => write_icmpv4(identifier, sequence, payload),
        (IpAddress::V6(source), IpAddress::V6(destination)) => match write_icmpv6(
            *destination,
            *source,
            identifier,
            sequence,
            payload,
        ) {
            Ok(header) => header,
            Err(error) => return Err(
                StackError { message: join("build ICMPv6 reply: ", error.as_str()) },
            ),
        },
        _ => return Err(StackError::new("ICMP address families differ")),
    };
    push_all(&mut response, payload);
    Ok(response)
}

/// A reply holds what the request held, but for its type and its checksum: the
/// identifier, the sequence number and the payload are the same bytes.
pub proof fn law_reply_echoes(source: IpAddress, destination: IpAddress, packet: Seq<u8>)
    requires
        (source is V6) == (destination is V6),
        packet.len() <= u32::MAX,
    ensures
        request_parts(destination is V6, packet) matches Ok((identifier, sequence, payload)) ==> (
        reply(source, destination, identifier, sequence, payload) matches Ok(bytes)
            && bytes.len() == packet.len() && bytes.skip(4) == packet.skip(4)),
{
    if let Ok((identifier, sequence, payload)) = request_parts(destination is V6, packet) {
        lemma_be16_bytes_of(packet[4], packet[5]);
        lemma_be16_bytes_of(packet[6], packet[7]);
        if let Ok(bytes) = reply(source, destination, identifier, sequence, payload) {
            assert(bytes.skip(4) =~= packet.skip(4));
        }
    }
}

/// A stack that accepts nothing.
#[derive(Default)]
pub struct PlannedStack;

impl PlannedStack {
    pub fn new() -> (stack: PlannedStack) {
        PlannedStack
    }

    /// What comes of attaching it.
    pub fn attach(&self) -> (error: StackError)
        ensures
            error.message@ == "packet-to-flow network stack is not implemented yet"@,
    {
        StackError::new("packet-to-flow network stack is not implemented yet")
    }
}

/// What a stack can do.
#[derive(Clone, Debug, PartialEq, Eq)]
pub struct StackCapability {
    pub supports_tcp: bool,
    pub supports_udp: bool,
    pub supports_icmp_echo: bool,
    pub supports_ipv4: bool,
    pub supports_ipv6: bool,
}

/// An echo request of version four has the type eight, one of version six the
/// type 128; behind a code of zero and the checksum stand the identifier, the
/// sequence number and the payload. Other messages are refused.
pub proof fn law_request_read(v6: bool, packet: Seq<u8>)
    requires
        8 <= packet.len() <= u32::MAX,
        packet[0] != 13,
        packet[0] != 14,
    ensures
        request_parts(v6, packet) is Ok <==> packet[1] == 0 && packet[0] == (if v6 {
            128u8
        } else {
            8u8
        }),
        request_parts(v6, packet) matches Ok((identifier, sequence, payload)) ==> identifier
            == packet[4] * 256 + packet[5] && sequence == packet[6] * 256 + packet[7] && payload
            == packet.skip(8),
{
}

/// An echo reply has the type zero in version four and 129 in version six, a code
/// of zero, the checksum, the identifier, the sequence number and the payload.
/// In version six the checksum is over a message from the destination of the
/// request to its source.
pub proof fn law_reply_layout(
    source: IpAddress,
    destination: IpAddress,
    identifier: u16,
    sequence: u16,
    payload: Seq<u8>,
)
    requires
        payload.len() <= 65535,
    ensures
        reply(source, destination, identifier, sequence, payload) is Ok <==> (source is V6) == (
        destination is V6),
        reply(source, destination, identifier, sequence, payload) matches Ok(bytes) ==> {
            &&& bytes.len() == 8 + payload.len()
            &&& bytes[0] == (if source is V6 {
                129u8
            } else {
                0u8
            })
            &&& bytes[1] == 0
            &&& bytes[2] * 256 + bytes[3] == (match (source, destination) {
                (IpAddress::V6(source), IpAddress::V6(destination)) => icmpv6_checksum(
                    destination@,
                    source@,
                    identifier,
                    sequence,
                    payload,
                ),
                _ => icmpv4_checksum(identifier, sequence, payload),
            })
            &&& bytes[4] * 256 + bytes[5] == identifier
            &&& bytes[6] * 256 + bytes[7] == sequence
            &&& bytes.skip(8) == payload
        },
{
    if let Ok(bytes) = reply(source, destination, identifier, sequence, payload) {
        assert(bytes.skip(8) =~= payload);
    }
}

/// Packets are at least 1280 and at most 65535 bytes long.
pub proof fn law_mtu(mtu: usize)
    ensures
        mtu < 1280 ==> limited(mtu) == 1280,
        1280 <= mtu <= 65535 ==> limited(mtu) == mtu,
        mtu > 65535 ==> limited(mtu) == 65535,
        DEFAULT_MTU == 1500,
        ICMP == 1,
        IPV6_ICMP == 58,
{
}

/// A stream becomes a flow of its own network from its source to its
/// destination; what is neither TCP nor UDP becomes none.
pub proof fn law_flow(stack: PacketFlowStack, stream: StackStream)
    ensures
        match stream {
            StackStream::Tcp(source, destination) => flow_of(stack, stream) == Some(
                (Network::Tcp, source@, destination@),
            ),
            StackStream::Udp(source, destination) => flow_of(stack, stream) == Some(
                (Network::Udp, source@, destination@),
            ),
            _ => flow_of(stack, stream) is None,
        },
{
}

/// A stream over TCP and one over UDP become flows, numbered one after the other,
/// from the sender of the packets to where they go. Messages of the protocols one
/// and fifty-eight are sent on where there is a device for them; everything else
/// is dropped, and takes no number.
pub proof fn law_accepted(
    stack: PacketFlowStack,
    source: Endpoint,
    destination: Endpoint,
    protocol: u8,
    next: u64,
)
    requires
        0 < next < u64::MAX,
    ensures
        ({
            let (tcp, then) = action_of(stack, StackStream::Tcp(source, destination), next);
            let (udp, _) = action_of(stack, StackStream::Udp(source, destination), then);
            &&& tcp matches ActionModel::Submit(flow) && flow.id == next && flow.network
                == Network::Tcp && flow.source == source@ && flow.destination == destination@
                && flow.inbound == stack.inbound && flow.domain is None
            &&& udp matches ActionModel::Submit(flow) && flow.id == next + 1 && flow.network
                == Network::Udp && flow.source == source@ && flow.destination == destination@
        }),
        ({
            let (action, then) = action_of(stack, StackStream::UnknownTransport(protocol), next);
            &&& then == next
            &&& match stack.icmp_interface_index {
                Some(index) => if protocol == 1 || protocol == 58 {
                    action == ActionModel::ForwardEcho(index)
                } else {
                    action is Refuse
                },
                None => action is Refuse,
            }
        }),
        action_of(stack, StackStream::UnknownNetwork, next) == (ActionModel::Refuse, next),
{
}

} // verus!
