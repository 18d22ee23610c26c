//! TUIC version 5: commands, addresses, and packets cut into fragments.
use crate::address::{
    host_bytes, host_fits, host_len, law_host_spelled, push_host, spells_host, Tags,
};
use crate::octets::{
    array16, array4, be16, be16_bytes, copy_range, lemma_be16_round_trip, push_all, push_be16,
    read_be16,
};
use crate::text::{from_utf8, lemma_utf8_round_trip, text_from_utf8, utf8};
use crate::types::{
    Endpoint, EndpointModel, Host, HostModel, IoError, IoErrorKind, IpAddress, IpModel,
    OutboundError,
};
use crate::outbound::direct::zeros;
use crate::outbound::tls_name::{chosen_name, name_view};
use crate::transport::config::TlsLayerConfig;
use crate::transport::layered::{
    alpn_bytes, parts_of, rustls_client_config, ClientParts, PartsModel,
};
use std::collections::{HashMap, HashSet};
use vstd::prelude::*;
use vstd::slice::slice_subrange;

verus! {

broadcast use vstd::std_specs::hash::group_hash_axioms;

pub const VERSION: u8 = 5;

pub const AUTHENTICATE: u8 = 0;

pub const CONNECT: u8 = 1;

pub const PACKET: u8 = 2;

pub const DISSOCIATE: u8 = 3;

pub const HEARTBEAT: u8 = 4;

/// How many payload bytes one fragment carries.
pub const UDP_FRAGMENT_PAYLOAD: usize = 1000;

/// The tags of an address.
pub open spec fn tags() -> Tags {
    Tags { v4: 1, domain: 0, v6: 2 }
}

/// An endpoint on the wire: the host, then the port.
pub open spec fn endpoint_bytes(endpoint: EndpointModel) -> Seq<u8> {
    host_bytes(tags(), endpoint.host) + be16_bytes(endpoint.port)
}

/// Appends an endpoint; a name longer than 255 bytes is refused and nothing is
/// appended.
pub fn encode_address(target: &Endpoint, output: &mut Vec<u8>) -> (done: Result<(), OutboundError>)
    ensures
        done is Ok <==> host_fits(target@.host),
        done is Ok ==> final(output)@ == old(output)@ + endpoint_bytes(target@),
        done matches Err(error) ==> error.message@ == "TUIC domain exceeds 255 bytes"@
            && final(output)@ == old(output)@,
{
    if !push_host(output, Tags { v4: 1, domain: 0, v6: 2 }, &target.host) {
        return Err(OutboundError::new("TUIC domain exceeds 255 bytes"));
    }
    push_be16(output, target.port);
    assert(output@ =~= old(output)@ + endpoint_bytes(target@));
    Ok(())
}

/// A failed read of a packet.
fn protocol_error(message: &str) -> (error: IoError)
    ensures
        error.says(IoErrorKind::InvalidInput, message@),
{
    IoError::new(IoErrorKind::InvalidInput, message)
}

/// The port that stands at `at`.
pub open spec fn port_at(packet: Seq<u8>, at: int) -> Result<u16, Seq<char>> {
    if at + 2 <= packet.len() {
        Ok(be16(packet[at], packet[at + 1]))
    } else {
        Err("missing TUIC port"@)
    }
}

/// Reads the port that stands at `offset`.
fn read_port(packet: &[u8], offset: usize) -> (port: Result<u16, IoError>)
    requires
        offset <= packet@.len(),
    ensures
        match port_at(packet@, offset as int) {
            Ok(value) => port == Ok::<u16, IoError>(value),
            Err(message) => port matches Err(error) && error.says(
                IoErrorKind::InvalidInput,
                message,
            ),
        },
{
    if packet.len() - offset < 2 {
        return Err(protocol_error("missing TUIC port"));
    }
    Ok(read_be16(packet, offset))
}

/// A host followed by its port, and where the port ends.
pub open spec fn with_port(packet: Seq<u8>, host: HostModel, end: int) -> Result<
    (Option<EndpointModel>, int),
    Seq<char>,
> {
    match port_at(packet, end) {
        Ok(port) => Ok((Some(EndpointModel { host, port }), end + 2)),
        Err(message) => Err(message),
    }
}

/// The endpoint that stands at `at`, or none where the address is left out, and
/// where it ends.
pub open spec fn address_at(packet: Seq<u8>, at: int) -> Result<
    (Option<EndpointModel>, int),
    Seq<char>,
> {
    if packet.len() <= at {
        Err("missing TUIC address"@)
    } else if packet[at] == 0xff {
        Ok((None, at + 1))
    } else if packet[at] == 0 {
        if packet.len() <= at + 1 {
            Err("missing TUIC domain length"@)
        } else {
            let end = at + 2 + packet[at + 1];
            if packet.len() < end {
                Err("truncated TUIC domain"@)
            } else {
                match from_utf8(packet.subrange(at + 2, end)) {
                    None => Err("invalid TUIC domain UTF-8"@),
                    Some(name) => with_port(packet, HostModel::Domain(name), end),
                }
            }
        }
    } else if packet[at] == 1 {
        if packet.len() < at + 5 {
            Err("truncated TUIC IPv4"@)
        } else {
            with_port(
                packet,
                HostModel::Ip(IpModel::V4(packet.subrange(at + 1, at + 5))),
                at + 5,
            )
        }
    } else if packet[at] == 2 {
        if packet.len() < at + 17 {
            Err("truncated TUIC IPv6"@)
        } else {
            with_port(
                packet,
                HostModel::Ip(IpModel::V6(packet.subrange(at + 1, at + 17))),
                at + 17,
            )
        }
    } else {
        Err("unknown TUIC address type"@)
    }
}

/// What an optional endpoint holds.
pub open spec fn endpoint_view(endpoint: Option<Endpoint>) -> Option<EndpointModel> {
    match endpoint {
        Some(endpoint) => Some(endpoint@),
        None => None,
    }
}

/// Reads the endpoint that stands at `offset`.
pub fn decode_address(packet: &[u8], offset: usize) -> (address: Result<
    (Option<Endpoint>, usize),
    IoError,
>)
    ensures
        match address_at(packet@, offset as int) {
            Ok((endpoint, end)) => address matches Ok((found, stop)) && endpoint_view(found)
                == endpoint && stop == end && offset < stop <= packet@.len(),
            Err(message) => address matches Err(error) && error.says(
                IoErrorKind::InvalidInput,
                message,
            ),
        },
{
    if packet.len() <= offset {
        return Err(protocol_error("missing TUIC address"));
    }
    let have: usize = packet.len() - offset;
    let kind = packet[offset];
    let (host, end): (Host, usize) = if kind == 0xff {
        return Ok((None, offset + 1));
    } else if kind == 0 {
        if have < 2 {
            return Err(protocol_error("missing TUIC domain length"));
        }
        let length: usize = packet[offset + 1] as usize;
        if have - 2 < length {
            return Err(protocol_error("truncated TUIC domain"));
        }
        let end: usize = offset + 2 + length;
        match text_from_utf8(slice_subrange(packet, offset + 2, end)) {
            Ok(name) => (Host::Domain(name), end),
            Err(_) => return Err(protocol_error("invalid TUIC domain UTF-8")),
        }
    } else if kind == 1 {
        if have < 5 {
            return Err(protocol_error("truncated TUIC IPv4"));
        }
        (Host::Ip(IpAddress::V4(array4(packet, offset + 1))), offset + 5)
    } else if kind == 2 {
        if have < 17 {
            return Err(protocol_error("truncated TUIC IPv6"));
        }
        (Host::Ip(IpAddress::V6(array16(packet, offset + 1))), offset + 17)
    } else {
        return Err(protocol_error("unknown TUIC address type"));
    };
    match read_port(packet, end) {
        Ok(port) => Ok((Some(Endpoint::new(host, port)), end + 2)),
        Err(error) => Err(error),
    }
}

/// An address that was written is read back, of whatever family, wherever it
/// stands.
pub proof fn law_address_round_trip(endpoint: EndpointModel, before: Seq<u8>, after: Seq<u8>)
    requires
        endpoint.host.wf(),
        host_fits(endpoint.host),
    ensures
        address_at(before + endpoint_bytes(endpoint) + after, before.len() as int) == Ok::<
            (Option<EndpointModel>, int),
            Seq<char>,
        >((Some(endpoint), (before + endpoint_bytes(endpoint)).len() as int)),
{
    let at = before.len() as int;
    let wire = host_bytes(tags(), endpoint.host);
    let packet = before + endpoint_bytes(endpoint) + after;
    let end = at + wire.len();
    lemma_be16_round_trip(endpoint.port);
    assert(packet[end] == be16_bytes(endpoint.port)[0]);
    assert(packet[end + 1] == be16_bytes(endpoint.port)[1]);
    assert(packet[at] == wire[0]);
    match endpoint.host {
        HostModel::Ip(IpModel::V4(octets)) => {
            assert(packet.subrange(at + 1, at + 5) =~= octets);
        },
        HostModel::Ip(IpModel::V6(octets)) => {
            assert(packet.subrange(at + 1, at + 17) =~= octets);
        },
        HostModel::Domain(name) => {
            assert(packet[at + 1] == wire[1]);
            assert(packet.subrange(at + 2, at + 2 + utf8(name).len()) =~= utf8(name));
            lemma_utf8_round_trip(name);
        },
    }
}

/// A packet command that arrived.
pub struct DecodedPacket {
    pub association: u16,
    pub packet_id: u16,
    pub total: u8,
    pub fragment: u8,
    pub source: Option<Endpoint>,
    pub payload: Vec<u8>,
}

/// What a [`DecodedPacket`] holds.
#[verifier::ext_equal]
pub struct PacketModel {
    pub association: u16,
    pub packet_id: u16,
    pub total: u8,
    pub fragment: u8,
    pub source: Option<EndpointModel>,
    pub payload: Seq<u8>,
}

impl View for DecodedPacket {
    type V = PacketModel;

    open spec fn view(&self) -> PacketModel {
        PacketModel {
            association: self.association,
            packet_id: self.packet_id,
            total: self.total,
            fragment: self.fragment,
            source: endpoint_view(self.source),
            payload: self.payload@,
        }
    }
}

/// Reads a packet command.
pub open spec fn packet_of(packet: Seq<u8>) -> Result<PacketModel, Seq<char>> {
    if packet.len() < 11 || packet[0] != VERSION || packet[1] != PACKET {
        Err("invalid TUIC datagram header"@)
    } else if packet[6] == 0 || packet[7] >= packet[6] {
        Err("invalid TUIC fragment counters"@)
    } else {
        match address_at(packet, 10) {
            Err(message) => Err(message),
            Ok((source, offset)) => if packet.len() != offset + be16(packet[8], packet[9]) {
                Err("TUIC datagram payload size mismatch"@)
            } else {
                Ok(
                    PacketModel {
                        association: be16(packet[2], packet[3]),
                        packet_id: be16(packet[4], packet[5]),
                        total: packet[6],
                        fragment: packet[7],
                        source,
                        payload: packet.skip(offset),
                    },
                )
            },
        }
    }
}

/// Reads a packet command.
pub fn decode_packet(packet: &[u8]) -> (decoded: Result<DecodedPacket, IoError>)
    ensures
        match packet_of(packet@) {
            Ok(model) => decoded matches Ok(decoded) && decoded@ == model,
            Err(message) => decoded matches Err(error) && error.says(
                IoErrorKind::InvalidInput,
                message,
            ),
        },
{
    if packet.len() < 11 || packet[0] != VERSION || packet[1] != PACKET {
        return Err(protocol_error("invalid TUIC datagram header"));
    }
    let association = read_be16(packet, 2);
    let packet_id = read_be16(packet, 4);
    let total = packet[6];
    let fragment = packet[7];
    let size: usize = read_be16(packet, 8) as usize;
    if total == 0 || fragment >= total {
        return Err(protocol_error("invalid TUIC fragment counters"));
    }
    let (source, offset) = match decode_address(packet, 10) {
        Ok(found) => found,
        Err(error) => return Err(error),
    };
    if packet.len() - offset != size {
        return Err(protocol_error("TUIC datagram payload size mismatch"));
    }
    let payload = copy_range(packet, offset, packet.len());
    assert(payload@ =~= packet@.skip(offset as int));
    Ok(DecodedPacket { association, packet_id, total, fragment, source, payload })
}

/// How many fragments a packet of `len` bytes is cut into.
pub open spec fn fragment_count(len: int) -> int {
    if len == 0 {
        1
    } else {
        (len + UDP_FRAGMENT_PAYLOAD - 1) / UDP_FRAGMENT_PAYLOAD as int
    }
}

/// The bytes that fragment `index` carries.
pub open spec fn chunk(packet: Seq<u8>, index: int) -> Seq<u8> {
    let from = index * UDP_FRAGMENT_PAYLOAD;
    let to = from + UDP_FRAGMENT_PAYLOAD;
    packet.subrange(
        from,
        if to < packet.len() {
            to
        } else {
            packet.len() as int
        },
    )
}

/// One fragment on the wire. Only the first names the target.
pub open spec fn fragment_bytes(
    association: u16,
    packet_id: u16,
    packet: Seq<u8>,
    target: EndpointModel,
    index: int,
) -> Seq<u8> {
    seq![VERSION, PACKET] + be16_bytes(association) + be16_bytes(packet_id) + seq![
        fragment_count(packet.len() as int) as u8,
        index as u8,
    ] + be16_bytes(chunk(packet, index).len() as u16) + (if index == 0 {
        endpoint_bytes(target)
    } else {
        seq![0xffu8]
    }) + chunk(packet, index)
}

/// Whether a packet is sent at all: it has bytes, its fragments can be counted
/// by one byte, and its target can be named.
pub open spec fn sendable(packet: Seq<u8>, target: EndpointModel) -> bool {
    &&& packet.len() > 0
    &&& fragment_count(packet.len() as int) <= 255
    &&& host_fits(target.host)
}

/// The datagrams that some vectors hold.
pub open spec fn datagram_views(datagrams: Seq<Vec<u8>>) -> Seq<Seq<u8>> {
    datagrams.map_values(|datagram: Vec<u8>| datagram@)
}

/// Counts the packets of one association.
pub struct PacketSender {
    pub association: u16,
    pub packet_id: u16,
}

impl PacketSender {
    pub fn new(association: u16) -> (sender: PacketSender)
        ensures
            sender.association == association,
            sender.packet_id == 0,
    {
        PacketSender { association, packet_id: 0 }
    }

    /// The datagrams to send for a packet, under the next packet number. A
    /// packet that cannot be sent uses its number up.
    pub fn send_udp_packets(&mut self, packet: &[u8], target: &Endpoint) -> (datagrams: Vec<
        Vec<u8>,
    >)
        ensures
            final(self).association == old(self).association,
            final(self).packet_id == old(self).packet_id.wrapping_add(1),
            datagram_views(datagrams@) == (if sendable(packet@, target@) {
                Seq::new(
                    fragment_count(packet@.len() as int) as nat,
                    |i: int|
                        fragment_bytes(
                            final(self).association,
                            final(self).packet_id,
                            packet@,
                            target@,
                            i,
                        ),
                )
            } else {
                Seq::empty()
            }),
    {
        self.packet_id = self.packet_id.wrapping_add(1);
        let mut datagrams: Vec<Vec<u8>> = Vec::new();
        let ghost wanted = Seq::new(
            fragment_count(packet@.len() as int) as nat,
            |i: int| fragment_bytes(self.association, self.packet_id, packet@, target@, i),
        );
        let mut address: Vec<u8> = Vec::new();
        let named = encode_address(target, &mut address).is_ok();
        assert(named ==> address@ =~= endpoint_bytes(target@));
        if packet.len() == 0 || packet.len() > 255 * UDP_FRAGMENT_PAYLOAD || !named {
            assert(!sendable(packet@, target@));
            assert(datagram_views(datagrams@) =~= Seq::empty());
            return datagrams;
        }
        let total: usize = (packet.len() + UDP_FRAGMENT_PAYLOAD - 1) / UDP_FRAGMENT_PAYLOAD;
        assert(datagram_views(datagrams@) =~= wanted.take(0));
        for fragment in 0..total
            invariant
                0 < packet@.len() <= 255 * UDP_FRAGMENT_PAYLOAD,
                packet@.len() == packet.len(),
                total == fragment_count(packet@.len() as int),
                total <= 255,
                address@ == endpoint_bytes(target@),
                wanted == Seq::new(
                    total as nat,
                    |i: int| fragment_bytes(self.association, self.packet_id, packet@, target@, i),
                ),
                datagram_views(datagrams@) == wanted.take(fragment as int),
        {
            let from: usize = fragment * UDP_FRAGMENT_PAYLOAD;
            let to: usize = if packet.len() - from > UDP_FRAGMENT_PAYLOAD {
                from + UDP_FRAGMENT_PAYLOAD
            } else {
                packet.len()
            };
            let piece = slice_subrange(packet, from, to);
            assert(piece@ == chunk(packet@, fragment as int));
            let mut command: Vec<u8> = Vec::new();
            command.push(VERSION);
            command.push(PACKET);
            push_be16(&mut command, self.association);
            push_be16(&mut command, self.packet_id);
            command.push(total as u8);
            command.push(fragment as u8);
            push_be16(&mut command, piece.len() as u16);
            if fragment == 0 {
                push_all(&mut command, address.as_slice());
            } else {
                command.push(0xff);
            }
            push_all(&mut command, piece);
            assert(command@ =~= fragment_bytes(
                self.association,
                self.packet_id,
                packet@,
                target@,
                fragment as int,
            ));
            let ghost before = datagrams@;
            let ghost bytes = command@;
            datagrams.push(command);
            assert(datagram_views(datagrams@) =~= datagram_views(before).push(bytes));
            assert(wanted.take(fragment + 1) =~= wanted.take(fragment as int).push(bytes));
        }
        assert(wanted.take(total as int) =~= wanted);
        datagrams
    }
}

/// The fragments of one packet that have arrived.
pub struct Fragments {
    pub source: Option<Endpoint>,
    pub parts: Vec<Option<Vec<u8>>>,
}

/// What [`Fragments`] hold.
#[verifier::ext_equal]
pub struct FragmentsModel {
    pub source: Option<EndpointModel>,
    pub parts: Seq<Option<Seq<u8>>>,
}

/// What an optional part holds.
pub open spec fn part_view(part: Option<Vec<u8>>) -> Option<Seq<u8>> {
    match part {
        Some(bytes) => Some(bytes@),
        None => None,
    }
}

impl View for Fragments {
    type V = FragmentsModel;

    open spec fn view(&self) -> FragmentsModel {
        FragmentsModel {
            source: endpoint_view(self.source),
            parts: self.parts@.map_values(|part: Option<Vec<u8>>| part_view(part)),
        }
    }
}

impl FragmentsModel {
    /// No fragment of `total` has arrived.
    pub open spec fn fresh(total: nat) -> FragmentsModel {
        FragmentsModel { source: None, parts: Seq::new(total, |i: int| None) }
    }

    /// Every fragment has arrived.
    pub open spec fn complete(self) -> bool {
        self.source is Some && forall|i: int|
            0 <= i < self.parts.len() ==> (#[trigger] self.parts[i]) is Some
    }

    /// After one more fragment.
    pub open spec fn with(self, packet: PacketModel) -> FragmentsModel {
        FragmentsModel {
            source: if packet.source is Some {
                packet.source
            } else {
                self.source
            },
            parts: self.parts.update(packet.fragment as int, Some(packet.payload)),
        }
    }
}

/// The parts one after the other.
pub open spec fn joined(parts: Seq<Option<Seq<u8>>>) -> Seq<u8>
    decreases parts.len(),
{
    if parts.len() == 0 {
        Seq::empty()
    } else {
        joined(parts.drop_last()) + parts.last()->0
    }
}

/// The number under which the fragments of a packet are kept.
pub open spec fn fragment_key(association: u16, packet_id: u16) -> u32 {
    (association as int * 0x1_0000 + packet_id) as u32
}

/// A packet that is complete.
pub struct DeliveredModel {
    pub association: u16,
    pub payload: Seq<u8>,
    pub source: EndpointModel,
}

/// What a fragment does: it is kept with the others of its packet, or completes
/// the packet, or, where it disagrees with them on their number, drops them.
pub open spec fn accepted(state: Map<u32, FragmentsModel>, packet: PacketModel) -> (
    Map<u32, FragmentsModel>,
    Option<DeliveredModel>,
) {
    let key = fragment_key(packet.association, packet.packet_id);
    let entry = if state.dom().contains(key) {
        state[key]
    } else {
        FragmentsModel::fresh(packet.total as nat)
    };
    let updated = entry.with(packet);
    if entry.parts.len() != packet.total || packet.fragment >= packet.total {
        (state.remove(key), None)
    } else if updated.complete() {
        (
            state.remove(key),
            Some(
                DeliveredModel {
                    association: packet.association,
                    payload: joined(updated.parts),
                    source: updated.source->0,
                },
            ),
        )
    } else {
        (state.insert(key, updated), None)
    }
}

/// Puts fragments together again.
pub struct Reassembler {
    pub entries: HashMap<u32, Fragments>,
}

impl View for Reassembler {
    type V = Map<u32, FragmentsModel>;

    open spec fn view(&self) -> Map<u32, FragmentsModel> {
        self.entries@.map_values(|fragments: Fragments| fragments@)
    }
}

/// A packet that is complete.
pub struct Delivered {
    pub association: u16,
    pub payload: Vec<u8>,
    pub source: Endpoint,
}

impl View for Delivered {
    type V = DeliveredModel;

    open spec fn view(&self) -> DeliveredModel {
        DeliveredModel {
            association: self.association,
            payload: self.payload@,
            source: self.source@,
        }
    }
}

impl Fragments {
    /// Room for `total` fragments.
    fn fresh(total: usize) -> (fragments: Fragments)
        ensures
            fragments@ == FragmentsModel::fresh(total as nat),
    {
        let mut parts: Vec<Option<Vec<u8>>> = Vec::new();
        for i in 0..total
            invariant
                parts@.len() == i,
                forall|j: int| 0 <= j < i ==> (#[trigger] parts@[j]) is None,
        {
            parts.push(None);
        }
        let fragments = Fragments { source: None, parts };
        assert(fragments@.parts =~= FragmentsModel::fresh(total as nat).parts);
        fragments
    }

    /// Whether every fragment has arrived.
    fn complete(&self) -> (yes: bool)
        ensures
            yes == self@.complete(),
    {
        if self.source.is_none() {
            return false;
        }
        for i in 0..self.parts.len()
            invariant
                self@.source is Some,
                forall|j: int| 0 <= j < i ==> (#[trigger] self@.parts[j]) is Some,
        {
            assert(self@.parts[i as int] == part_view(self.parts@[i as int]));
            if self.parts[i].is_none() {
                return false;
            }
        }
        true
    }

    /// The parts one after the other.
    fn join_parts(&self) -> (payload: Vec<u8>)
        requires
            self@.complete(),
        ensures
            payload@ == joined(self@.parts),
    {
        let mut payload: Vec<u8> = Vec::new();
        for i in 0..self.parts.len()
            invariant
                self@.complete(),
                payload@ == joined(self@.parts.take(i as int)),
        {
            assert(self@.parts[i as int] == part_view(self.parts@[i as int]));
            assert(self@.parts.take(i + 1).drop_last() =~= self@.parts.take(i as int));
            match &self.parts[i] {
                Some(part) => push_all(&mut payload, part.as_slice()),
                None => {},
            }
        }
        assert(self@.parts.take(self.parts@.len() as int) =~= self@.parts);
        payload
    }
}

impl Reassembler {
    pub fn new() -> (reassembler: Reassembler)
        ensures
            reassembler@ == Map::<u32, FragmentsModel>::empty(),
    {
        let reassembler = Reassembler { entries: HashMap::new() };
        assert(reassembler@ =~= Map::<u32, FragmentsModel>::empty());
        reassembler
    }

    /// Takes a fragment; gives the packet where it completes one.
    pub fn dispatch_datagrams(&mut self, packet: DecodedPacket) -> (delivered: Option<Delivered>)
        ensures
            ({
                let (state, result) = accepted(old(self)@, packet@);
                &&& final(self)@ == state
                &&& delivered is Some <==> result is Some
                &&& delivered matches Some(delivered) ==> Some(delivered@) == result
            }),
    {
        let key: u32 = (packet.association as u32) * 0x1_0000 + packet.packet_id as u32;
        let ghost model = packet@;
        let ghost before = self@;
        let total: usize = packet.total as usize;
        let index: usize = packet.fragment as usize;
        let mut entry = match self.entries.remove(&key) {
            Some(entry) => entry,
            None => Fragments::fresh(total),
        };
        assert(self@ =~= before.remove(key));
        if entry.parts.len() != total || index >= total {
            return None;
        }
        let ghost kept = entry@;
        if packet.source.is_some() {
            entry.source = packet.source;
        }
        entry.parts[index] = Some(packet.payload);
        assert(entry@ =~= kept.with(model)) by {
            assert(entry@.parts =~= kept.with(model).parts);
        }
        if entry.complete() {
            let payload = entry.join_parts();
            match entry.source {
                Some(source) => Some(
                    Delivered { association: packet.association, payload, source },
                ),
                None => None,
            }
        } else {
            self.entries.insert(key, entry);
            assert(self@ =~= before.insert(key, kept.with(model)));
            None
        }
    }
}

/// The packet command of one fragment.
pub open spec fn fragment_model(
    association: u16,
    packet_id: u16,
    packet: Seq<u8>,
    target: EndpointModel,
    index: int,
) -> PacketModel {
    PacketModel {
        association,
        packet_id,
        total: fragment_count(packet.len() as int) as u8,
        fragment: index as u8,
        source: if index == 0 {
            Some(target)
        } else {
            None
        },
        payload: chunk(packet, index),
    }
}

/// Every fragment that is sent is read back.
pub proof fn law_fragment_round_trip(
    association: u16,
    packet_id: u16,
    packet: Seq<u8>,
    target: EndpointModel,
    index: int,
)
    requires
        sendable(packet, target),
        target.host.wf(),
        0 <= index < fragment_count(packet.len() as int),
    ensures
        packet_of(fragment_bytes(association, packet_id, packet, target, index)) == Ok::<
            PacketModel,
            Seq<char>,
        >(fragment_model(association, packet_id, packet, target, index)),
{
    let wire = fragment_bytes(association, packet_id, packet, target, index);
    let part = chunk(packet, index);
    lemma_be16_round_trip(association);
    lemma_be16_round_trip(packet_id);
    lemma_be16_round_trip(part.len() as u16);
    let head = seq![VERSION, PACKET] + be16_bytes(association) + be16_bytes(packet_id) + seq![
        fragment_count(packet.len() as int) as u8,
        index as u8,
    ] + be16_bytes(part.len() as u16);
    assert(head.len() == 10);
    assert(wire[2] == be16_bytes(association)[0] && wire[3] == be16_bytes(association)[1]);
    assert(wire[4] == be16_bytes(packet_id)[0] && wire[5] == be16_bytes(packet_id)[1]);
    assert(wire[8] == be16_bytes(part.len() as u16)[0] && wire[9] == be16_bytes(
        part.len() as u16,
    )[1]);
    if index == 0 {
        law_address_round_trip(target, head, part);
        assert(wire =~= head + endpoint_bytes(target) + part);
        assert(wire.skip((head + endpoint_bytes(target)).len() as int) =~= part);
    } else {
        assert(wire[10] == 0xff);
        assert(wire.skip(11) =~= part);
    }
}

/// The state and the deliveries after a run of packet commands.
pub open spec fn run(state: Map<u32, FragmentsModel>, packets: Seq<PacketModel>) -> (
    Map<u32, FragmentsModel>,
    Seq<DeliveredModel>,
)
    decreases packets.len(),
{
    if packets.len() == 0 {
        (state, Seq::empty())
    } else {
        let (before, delivered) = run(state, packets.drop_last());
        let (after, last) = accepted(before, packets.last());
        (
            after,
            match last {
                Some(packet) => delivered.push(packet),
                None => delivered,
            },
        )
    }
}

/// Whether `order` names each of `0..count` once.
pub open spec fn is_order(order: Seq<int>, count: int) -> bool {
    &&& order.len() == count
    &&& forall|i: int| 0 <= i < count ==> 0 <= #[trigger] order[i] < count
    &&& forall|i: int, j: int| 0 <= i < j < count ==> order[i] != order[j]
    &&& forall|value: int| 0 <= value < count ==> order.contains(value)
}

/// What has arrived after the fragments in `seen`.
spec fn arrived(packet: Seq<u8>, target: EndpointModel, seen: Seq<int>) -> FragmentsModel {
    FragmentsModel {
        source: if seen.contains(0) {
            Some(target)
        } else {
            None
        },
        parts: Seq::new(
            fragment_count(packet.len() as int) as nat,
            |i: int|
                if seen.contains(i) {
                    Some(chunk(packet, i))
                } else {
                    None
                },
        ),
    }
}

/// The packet commands of the fragments in an order.
pub open spec fn in_order(
    association: u16,
    packet_id: u16,
    packet: Seq<u8>,
    target: EndpointModel,
    order: Seq<int>,
) -> Seq<PacketModel> {
    order.map_values(|index: int| fragment_model(association, packet_id, packet, target, index))
}

proof fn lemma_partial_run(
    state: Map<u32, FragmentsModel>,
    association: u16,
    packet_id: u16,
    packet: Seq<u8>,
    target: EndpointModel,
    order: Seq<int>,
    upto: int,
)
    requires
        sendable(packet, target),
        is_order(order, fragment_count(packet.len() as int)),
        !state.dom().contains(fragment_key(association, packet_id)),
        0 <= upto < order.len(),
    ensures
        run(state, in_order(association, packet_id, packet, target, order.take(upto))) == (
            if upto == 0 {
                state
            } else {
                state.insert(
                    fragment_key(association, packet_id),
                    arrived(packet, target, order.take(upto)),
                )
            },
            Seq::<DeliveredModel>::empty(),
        ),
    decreases upto,
{
    let key = fragment_key(association, packet_id);
    let count = fragment_count(packet.len() as int);
    if upto > 0 {
        lemma_partial_run(state, association, packet_id, packet, target, order, upto - 1);
        let seen = order.take(upto - 1);
        let now = order.take(upto);
        let packets = in_order(association, packet_id, packet, target, now);
        let index = order[upto - 1];
        assert(packets.drop_last() =~= in_order(association, packet_id, packet, target, seen));
        assert(packets.last() == fragment_model(association, packet_id, packet, target, index));
        let before = run(state, packets.drop_last()).0;
        let entry = if upto == 1 {
            FragmentsModel::fresh(count as nat)
        } else {
            arrived(packet, target, seen)
        };
        lemma_one_more(packet, target, order, upto);
        let updated = entry.with(packets.last());
        assert(updated =~= arrived(packet, target, now)) by {
            lemma_updated(association, packet_id, packet, target, order, upto, entry);
        }
        // The fragment that comes last has not arrived yet.
        let missing = order[upto];
        assert(!now.contains(missing)) by {
            if now.contains(missing) {
                let at = choose|at: int| 0 <= at < now.len() && now[at] == missing;
                assert(order[at] == order[upto]);
            }
        }
        assert(updated.parts[missing] is None);
        assert(!updated.complete());
        assert(before.insert(key, updated) =~= state.insert(key, updated));
    } else {
        assert(in_order(association, packet_id, packet, target, order.take(0)).len() == 0);
    }
}

proof fn lemma_one_more(packet: Seq<u8>, target: EndpointModel, order: Seq<int>, upto: int)
    requires
        0 < upto <= order.len(),
    ensures
        forall|value: int|
            order.take(upto).contains(value) <==> order.take(upto - 1).contains(value) || value
                == order[upto - 1],
{
    let now = order.take(upto);
    let seen = order.take(upto - 1);
    assert forall|value: int|
        now.contains(value) <==> seen.contains(value) || value == order[upto - 1] by {
        if now.contains(value) {
            let at = choose|at: int| 0 <= at < now.len() && now[at] == value;
            if at < upto - 1 {
                assert(seen[at] == value);
            }
        }
        if seen.contains(value) {
            let at = choose|at: int| 0 <= at < seen.len() && seen[at] == value;
            assert(now[at] == value);
        }
        assert(now[upto - 1] == order[upto - 1]);
    }
}

proof fn lemma_updated(
    association: u16,
    packet_id: u16,
    packet: Seq<u8>,
    target: EndpointModel,
    order: Seq<int>,
    upto: int,
    entry: FragmentsModel,
)
    requires
        sendable(packet, target),
        is_order(order, fragment_count(packet.len() as int)),
        0 < upto <= order.len(),
        entry == (if upto == 1 {
            FragmentsModel::fresh(fragment_count(packet.len() as int) as nat)
        } else {
            arrived(packet, target, order.take(upto - 1))
        }),
    ensures
        entry.with(fragment_model(association, packet_id, packet, target, order[upto - 1]))
            == arrived(packet, target, order.take(upto)),
{
    lemma_one_more(packet, target, order, upto);
    let seen = order.take(upto - 1);
    if upto == 1 {
        assert(seen.len() == 0);
    }
    assert(forall|i: int| upto == 1 ==> !seen.contains(i));
    let updated = entry.with(
        fragment_model(association, packet_id, packet, target, order[upto - 1]),
    );
    assert(updated.parts =~= arrived(packet, target, order.take(upto)).parts);
    assert(updated =~= arrived(packet, target, order.take(upto)));
}

proof fn lemma_chunks_join(packet: Seq<u8>, upto: int)
    requires
        packet.len() > 0,
        0 <= upto <= fragment_count(packet.len() as int),
    ensures
        joined(Seq::new(upto as nat, |i: int| Some(chunk(packet, i)))) == packet.take(
            if upto * UDP_FRAGMENT_PAYLOAD < packet.len() {
                upto * UDP_FRAGMENT_PAYLOAD
            } else {
                packet.len() as int
            },
        ),
    decreases upto,
{
    let parts = Seq::new(upto as nat, |i: int| Some(chunk(packet, i)));
    if upto > 0 {
        lemma_chunks_join(packet, upto - 1);
        assert(parts.drop_last() =~= Seq::new((upto - 1) as nat, |i: int| Some(chunk(packet, i))));
        assert((upto - 1) * UDP_FRAGMENT_PAYLOAD < packet.len());
        let to = if upto * UDP_FRAGMENT_PAYLOAD < packet.len() {
            upto * UDP_FRAGMENT_PAYLOAD
        } else {
            packet.len() as int
        };
        assert(packet.take((upto - 1) * UDP_FRAGMENT_PAYLOAD) + chunk(packet, upto - 1)
            =~= packet.take(to));
    } else {
        assert(packet.take(0) =~= Seq::<u8>::empty());
    }
}

/// A packet that is sent arrives whole: in whatever order its fragments come,
/// the last of them delivers it, with its source, and nothing of it is kept.
pub proof fn law_reassembly(
    state: Map<u32, FragmentsModel>,
    association: u16,
    packet_id: u16,
    packet: Seq<u8>,
    target: EndpointModel,
    order: Seq<int>,
)
    requires
        sendable(packet, target),
        is_order(order, fragment_count(packet.len() as int)),
        !state.dom().contains(fragment_key(association, packet_id)),
    ensures
        run(state, in_order(association, packet_id, packet, target, order)) == (
            state,
            seq![DeliveredModel { association, payload: packet, source: target }],
        ),
{
    let key = fragment_key(association, packet_id);
    let count = fragment_count(packet.len() as int);
    lemma_partial_run(state, association, packet_id, packet, target, order, count - 1);
    let packets = in_order(association, packet_id, packet, target, order);
    assert(packets.drop_last() =~= in_order(
        association,
        packet_id,
        packet,
        target,
        order.take(count - 1),
    ));
    assert(order.take(count) =~= order);
    let entry = if count == 1 {
        FragmentsModel::fresh(count as nat)
    } else {
        arrived(packet, target, order.take(count - 1))
    };
    lemma_updated(association, packet_id, packet, target, order, count, entry);
    let updated = arrived(packet, target, order);
    assert(updated.complete()) by {
        assert(order.contains(0));
    }
    assert(updated.parts =~= Seq::new(count as nat, |i: int| Some(chunk(packet, i))));
    lemma_chunks_join(packet, count);
    assert(packet.take(packet.len() as int) =~= packet);
    let before = run(state, packets.drop_last()).0;
    assert(before.remove(key) =~= state);
    let delivered = DeliveredModel { association, payload: packet, source: target };
    assert(Seq::<DeliveredModel>::empty().push(delivered) =~= seq![delivered]);
}

/// The numbers of the associations that are open, and where the search for the
/// next begins.
pub struct Associations {
    pub next: u16,
    pub active: HashSet<u16>,
}

/// The number that the counter stands for: zero is never used.
pub open spec fn candidate(start: u16, step: int) -> u16 {
    let value = (start + step) % 0x1_0000;
    if value == 0 {
        1
    } else {
        value as u16
    }
}

impl Associations {
    pub fn new() -> (associations: Associations)
        ensures
            associations.next == 1,
            associations.active@ == Set::<u16>::empty(),
    {
        Associations { next: 1, active: HashSet::new() }
    }

    /// Whether some number is free.
    pub open spec fn has_room(self) -> bool {
        exists|id: u16| id > 0 && !self.active@.contains(id)
    }

    /// Finds the first free number from the counter on, passing over zero, and
    /// moves the counter behind it.
    pub fn allocate_association(&mut self) -> (id: u16)
        requires
            old(self).has_room(),
        ensures
            id > 0,
            !old(self).active@.contains(id),
            final(self).active == old(self).active,
            exists|step: int|
                {
                    &&& 0 <= step < 0x1_0000
                    &&& id == #[trigger] candidate(old(self).next, step)
                    &&& final(self).next == (old(self).next + step + 1) % 0x1_0000
                    &&& forall|before: int|
                        0 <= before < step ==> old(self).active@.contains(
                            #[trigger] candidate(old(self).next, before),
                        )
                },
    {
        let ghost start = self.next;
        let ghost active = self.active@;
        let mut step: u32 = 0;
        proof {
            lemma_some_candidate(start, active);
        }
        loop
            invariant
                start == old(self).next,
                active == old(self).active@,
                self.active == old(self).active,
                self.active@ == active,
                step < 0x1_0000,
                self.next == (start + step) % 0x1_0000,
                exists|free: int| 0 <= free < 0x1_0000 && !active.contains(candidate(start, free)),
                forall|before: int|
                    0 <= before < step ==> active.contains(#[trigger] candidate(start, before)),
            decreases 0x1_0000 - step,
        {
            let id: u16 = if self.next == 0 {
                1
            } else {
                self.next
            };
            self.next = self.next.wrapping_add(1);
            assert(id == candidate(start, step as int));
            if !self.active.contains(&id) {
                return id;
            }
            proof {
                let free = choose|free: int|
                    0 <= free < 0x1_0000 && !active.contains(candidate(start, free));
                assert(free > step);
            }
            step += 1;
        }
    }

    /// Opens an association under the first free number from the counter on.
    pub fn open(&mut self) -> (id: u16)
        requires
            old(self).has_room(),
        ensures
            id > 0,
            !old(self).active@.contains(id),
            final(self).active@ == old(self).active@.insert(id),
            exists|step: int|
                {
                    &&& 0 <= step < 0x1_0000
                    &&& id == #[trigger] candidate(old(self).next, step)
                    &&& final(self).next == (old(self).next + step + 1) % 0x1_0000
                    &&& forall|before: int|
                        0 <= before < step ==> old(self).active@.contains(
                            #[trigger] candidate(old(self).next, before),
                        )
                },
    {
        let id = self.allocate_association();
        self.active.insert(id);
        id
    }

    /// Closes an association.
    pub fn close(&mut self, id: u16)
        ensures
            final(self).next == old(self).next,
            final(self).active@ == old(self).active@.remove(id),
    {
        self.active.remove(&id);
    }
}

/// What is done for a connection.
pub enum ConnectionStep {
    /// The one that is open is used.
    Reuse,
    /// A new one is made, from this address.
    Connect(Endpoint),
}

impl Associations {
    /// What is done for a connection to the server; `open` says whether there is
    /// one. A new connection has no associations.
    pub fn connection(&mut self, open: bool, server: &IpAddress) -> (step: ConnectionStep)
        ensures
            final(self).next == old(self).next,
            if open {
                step is Reuse && final(self).active@ == old(self).active@
            } else {
                &&& final(self).active@ == Set::<u16>::empty()
                &&& step matches ConnectionStep::Connect(bind) && bind@ == (EndpointModel {
                    host: match *server {
                        IpAddress::V4(_) => HostModel::Ip(IpModel::V4(zeros(4))),
                        IpAddress::V6(_) => HostModel::Ip(IpModel::V6(zeros(16))),
                    },
                    port: 0,
                })
            },
    {
        if open {
            return ConnectionStep::Reuse;
        }
        self.active.clear();
        let host = match server {
            IpAddress::V4(_) => {
                let any = [0u8, 0, 0, 0];
                assert(any@ =~= zeros(4));
                Host::Ip(IpAddress::V4(any))
            },
            IpAddress::V6(_) => {
                let any = [0u8, 0, 0, 0, 0, 0, 0, 0, 0, 0, 0, 0, 0, 0, 0, 0];
                assert(any@ =~= zeros(16));
                Host::Ip(IpAddress::V6(any))
            },
        };
        ConnectionStep::Connect(Endpoint::new(host, 0))
    }
}

proof fn lemma_some_candidate(start: u16, active: Set<u16>)
    requires
        exists|id: u16| id > 0 && !active.contains(id),
    ensures
        exists|free: int| 0 <= free < 0x1_0000 && !active.contains(candidate(start, free)),
{
    let id = choose|id: u16| id > 0 && !active.contains(id);
    let free = if id >= start {
        id - start
    } else {
        id - start + 0x1_0000
    };
    assert(candidate(start, free) == id);
}

/// The command that proves knowledge of the password.
pub open spec fn authenticate_bytes(uuid: Seq<u8>, token: Seq<u8>) -> Seq<u8> {
    seq![VERSION, AUTHENTICATE] + uuid + token
}

/// The header that asks for a stream.
pub open spec fn connect_bytes(target: EndpointModel) -> Seq<u8> {
    seq![VERSION, CONNECT] + endpoint_bytes(target)
}

/// The command that ends an association.
pub open spec fn dissociate_bytes(association: u16) -> Seq<u8> {
    seq![VERSION, DISSOCIATE] + be16_bytes(association)
}

/// The command that proves knowledge of the password: the UUID and a token
/// exported from the TLS session.
pub fn authenticate(uuid: &[u8; 16], token: &[u8; 32]) -> (command: Vec<u8>)
    ensures
        command@ == seq![VERSION, AUTHENTICATE] + uuid@ + token@,
        command@ == authenticate_bytes(uuid@, token@),
{
    let mut command: Vec<u8> = Vec::with_capacity(50);
    command.push(VERSION);
    command.push(AUTHENTICATE);
    push_all(&mut command, uuid);
    push_all(&mut command, token);
    assert(command@ =~= seq![VERSION, AUTHENTICATE] + uuid@ + token@);
    command
}

/// The header that asks for a stream.
pub fn open_stream(target: &Endpoint) -> (header: Result<Vec<u8>, OutboundError>)
    ensures
        header is Ok <==> host_fits(target@.host),
        header matches Ok(bytes) ==> bytes@ == seq![VERSION, CONNECT] + endpoint_bytes(target@),
        header matches Ok(bytes) ==> bytes@ == connect_bytes(target@),
        header matches Err(error) ==> error.message@ == "TUIC domain exceeds 255 bytes"@,
{
    let mut header: Vec<u8> = Vec::new();
    header.push(VERSION);
    header.push(CONNECT);
    match encode_address(target, &mut header) {
        Ok(()) => {
            assert(header@ =~= seq![VERSION, CONNECT] + endpoint_bytes(target@));
            Ok(header)
        },
        Err(error) => Err(error),
    }
}

/// The command that closes an association.
pub fn dissociate(association: u16) -> (command: Vec<u8>)
    ensures
        command@ == seq![VERSION, DISSOCIATE] + be16_bytes(association),
        command@ == dissociate_bytes(association),
{
    let mut command: Vec<u8> = Vec::new();
    command.push(VERSION);
    command.push(DISSOCIATE);
    push_be16(&mut command, association);
    assert(command@ =~= seq![VERSION, DISSOCIATE] + be16_bytes(association));
    command
}

/// The command that keeps a connection alive.
pub fn heartbeat() -> (command: Vec<u8>)
    ensures
        command@ == seq![VERSION, HEARTBEAT],
{
    let mut command: Vec<u8> = Vec::new();
    command.push(VERSION);
    command.push(HEARTBEAT);
    assert(command@ =~= seq![VERSION, HEARTBEAT]);
    command
}

/// A TUIC server and how to reach it.
pub struct TuicConfig {
    pub server: Endpoint,
    pub uuid: [u8; 16],
    pub password: String,
    pub tls: TlsLayerConfig,
    pub heartbeat_millis: u64,
}

/// A checked configuration.
pub struct TuicOutbound {
    pub server: Endpoint,
    pub server_name: String,
    pub uuid: [u8; 16],
    pub password: String,
    pub tls: TlsLayerConfig,
    /// What the TLS client is built from.
    pub client: ClientParts,
    pub heartbeat_millis: u64,
}

/// The pause between heartbeats, in milliseconds.
pub open spec fn heartbeat_pause(configured: u64) -> u64 {
    if configured < 1000 {
        1000
    } else {
        configured
    }
}

/// What the TLS client of a server is built from, or why it cannot be: without
/// protocols of its own a client offers `h3`.
pub open spec fn client_parts(tls: TlsLayerConfig) -> Result<PartsModel, Seq<char>> {
    match parts_of(tls) {
        Err(fault) => Err(fault),
        Ok(parts) => Ok(
            PartsModel {
                alpn: if tls.alpn@.len() == 0 {
                    seq![utf8("h3"@)]
                } else {
                    parts.alpn
                },
                ..parts
            },
        ),
    }
}

impl TuicOutbound {
    /// Checks a configuration; `host_text` is the server's host in text form.
    /// Without protocols of its own a client offers `h3`, and it sends no
    /// heartbeat more often than once a second.
    pub fn new(config: TuicConfig, host_text: &str) -> (outbound: Result<
        TuicOutbound,
        OutboundError,
    >)
        ensures
            outbound is Ok <==> config.password@.len() > 0 && client_parts(config.tls) is Ok,
            outbound matches Err(error) ==> error.message@ == (if config.password@.len() == 0 {
                "TUIC password must not be empty"@
            } else {
                client_parts(config.tls)->Err_0
            }),
            outbound matches Ok(outbound) ==> {
                &&& outbound.client@ == client_parts(config.tls)->Ok_0
                &&& outbound.server == config.server
                &&& outbound.uuid == config.uuid
                &&& outbound.password == config.password
                &&& outbound.server_name@ == chosen_name(
                    name_view(config.tls.server_name),
                    host_text@,
                )
                &&& outbound.heartbeat_millis == (if config.heartbeat_millis < 1000 {
                    1000
                } else {
                    config.heartbeat_millis
                })
                &&& outbound.heartbeat_millis == heartbeat_pause(config.heartbeat_millis)
                &&& outbound.tls.alpn@.len() == (if config.tls.alpn@.len() == 0 {
                    1
                } else {
                    config.tls.alpn@.len()
                })
                &&& config.tls.alpn@.len() == 0 ==> outbound.tls.alpn@[0]@ == "h3"@
                &&& outbound.tls == (TlsLayerConfig { alpn: outbound.tls.alpn, ..config.tls })
                &&& config.tls.alpn@.len() > 0 ==> outbound.tls == config.tls
            },
    {
        if config.password.as_str().is_empty() {
            return Err(OutboundError::new("TUIC password must not be empty"));
        }
        let server_name: String = match &config.tls.server_name {
            Some(name) => name.as_str().to_owned(),
            None => host_text.to_owned(),
        };
        let mut tls = config.tls;
        if tls.alpn.len() == 0 {
            tls.alpn.push("h3".to_owned());
        }
        proof {
            if config.tls.alpn@.len() == 0 {
                assert(alpn_bytes(tls.alpn@) =~= seq![utf8("h3"@)]);
            }
        }
        let client = match rustls_client_config(&tls) {
            Ok(client) => client,
            Err(error) => return Err(OutboundError { message: error.message }),
        };
        let heartbeat_millis: u64 = if config.heartbeat_millis < 1000 {
            1000
        } else {
            config.heartbeat_millis
        };
        Ok(
            TuicOutbound {
                server: config.server,
                server_name,
                uuid: config.uuid,
                password: config.password,
                tls,
                client,
                heartbeat_millis,
            },
        )
    }
}

/// What a server reads of a fragment: version five and the command two, the
/// association, the packet's number, how many fragments there are and which this
/// is, the length of what it carries, the target in the first and the byte 255 in
/// the others, and at most a thousand bytes of the packet.
pub proof fn law_fragment_layout(
    association: u16,
    packet_id: u16,
    packet: Seq<u8>,
    target: EndpointModel,
    index: int,
)
    requires
        sendable(packet, target),
        target.host.wf(),
        0 <= index < fragment_count(packet.len() as int),
    ensures
        ({
            let bytes = fragment_bytes(association, packet_id, packet, target, index);
            let left = packet.len() - index * 1000;
            let carried = if left < 1000 {
                left
            } else {
                1000
            };
            let end = if index == 0 {
                10 + host_len(target.host) + 2
            } else {
                11
            };
            &&& 0 < carried
            &&& bytes.len() == end + carried
            &&& bytes[0] == 5 && bytes[1] == 2
            &&& bytes[2] * 256 + bytes[3] == association
            &&& bytes[4] * 256 + bytes[5] == packet_id
            &&& (bytes[6] - 1) * 1000 < packet.len() <= bytes[6] * 1000
            &&& bytes[7] == index
            &&& bytes[8] * 256 + bytes[9] == carried
            &&& index == 0 ==> spells_host(bytes, 10, 1, 0, 2, target.host) && bytes[end - 2] * 256
                + bytes[end - 1] == target.port
            &&& index > 0 ==> bytes[10] == 255
            &&& bytes.skip(end) == packet.subrange(index * 1000, index * 1000 + carried)
        }),
{
    let bytes = fragment_bytes(association, packet_id, packet, target, index);
    let part = chunk(packet, index);
    let count = fragment_count(packet.len() as int);
    assert((count - 1) * 1000 < packet.len() <= count * 1000);
    assert(index * 1000 < packet.len());
    let before = seq![VERSION, PACKET] + be16_bytes(association) + be16_bytes(packet_id) + seq![
        count as u8,
        index as u8,
    ] + be16_bytes(part.len() as u16);
    if index == 0 {
        let after = be16_bytes(target.port) + part;
        assert(bytes =~= before + host_bytes(tags(), target.host) + after);
        law_host_spelled(tags(), target.host, before, after);
        let end = 10 + host_len(target.host) + 2;
        assert(bytes[end - 2] == after[0] && bytes[end - 1] == after[1]);
        assert(bytes.skip(end) =~= part);
    } else {
        assert(bytes.skip(11) =~= part);
    }
    assert(bytes[8] == before[8] && bytes[9] == before[9]);
}

/// The other commands have the numbers zero, one, three and four.
pub proof fn law_commands(endpoint: EndpointModel)
    requires
        endpoint.host.wf(),
        host_fits(endpoint.host),
    ensures
        VERSION == 5,
        AUTHENTICATE == 0,
        CONNECT == 1,
        PACKET == 2,
        DISSOCIATE == 3,
        HEARTBEAT == 4,
        spells_host(endpoint_bytes(endpoint), 0, 1, 0, 2, endpoint.host),
        endpoint_bytes(endpoint).len() == host_len(endpoint.host) + 2,
        ({
            let end = host_len(endpoint.host);
            endpoint_bytes(endpoint)[end] * 256 + endpoint_bytes(endpoint)[end + 1]
                == endpoint.port
        }),
{
    let after = be16_bytes(endpoint.port);
    let none = Seq::<u8>::empty();
    assert(endpoint_bytes(endpoint) =~= none + host_bytes(tags(), endpoint.host) + after);
    law_host_spelled(tags(), endpoint.host, none, after);
    let end = host_len(endpoint.host);
    assert(endpoint_bytes(endpoint)[end] == after[0]);
    assert(endpoint_bytes(endpoint)[end + 1] == after[1]);
}

/// A packet command is read only where it has the version and the number, counts
/// a fragment that exists, and is as long as it says.
pub proof fn law_packet_read(packet: Seq<u8>)
    ensures
        packet_of(packet) matches Ok(read) ==> {
            &&& packet.len() >= 11
            &&& packet[0] == 5 && packet[1] == 2
            &&& read.association == packet[2] * 256 + packet[3]
            &&& read.packet_id == packet[4] * 256 + packet[5]
            &&& read.total == packet[6] && read.fragment == packet[7]
            &&& read.fragment < read.total
            &&& read.payload.len() == packet[8] * 256 + packet[9]
            &&& packet.skip(packet.len() - read.payload.len()) == read.payload
            &&& packet[10] == 255 <==> read.source is None
        },
{
    if let Ok(read) = packet_of(packet) {
        let (source, offset) = address_at(packet, 10)->Ok_0;
        assert(packet.skip(packet.len() - read.payload.len()) =~= read.payload);
    }
}

/// Numbers of associations count on from the last, and zero is never one.
pub proof fn law_candidate(start: u16, step: int)
    requires
        0 <= step < 0x1_0000,
    ensures
        candidate(start, step) > 0,
        start + step < 0x1_0000 && start + step > 0 ==> candidate(start, step) == start + step,
        start + step == 0x1_0000 ==> candidate(start, step) == 1,
        start + step > 0x1_0000 ==> candidate(start, step) == start + step - 0x1_0000,
{
}

/// Without protocols of its own a client offers `h3`; else it offers its own.
pub proof fn law_offers(tls: TlsLayerConfig)
    ensures
        client_parts(tls) is Ok <==> parts_of(tls) is Ok,
        client_parts(tls) matches Ok(parts) ==> {
            &&& tls.alpn@.len() == 0 ==> parts.alpn == seq![utf8("h3"@)]
            &&& tls.alpn@.len() > 0 ==> parts.alpn == parts_of(tls)->Ok_0.alpn
            &&& parts.pins == parts_of(tls)->Ok_0.pins
            &&& parts.identity == parts_of(tls)->Ok_0.identity
            &&& parts.authorities == parts_of(tls)->Ok_0.authorities
            &&& parts.ech == parts_of(tls)->Ok_0.ech
            &&& parts.verify_chain == parts_of(tls)->Ok_0.verify_chain
        },
{
}

/// What a server reads of the commands besides packets: version five and the
/// number of the command, then the UUID and the token of a client that proves
/// itself, the target of a stream, or the association that ends.
pub proof fn law_command_layout(
    uuid: Seq<u8>,
    token: Seq<u8>,
    target: EndpointModel,
    association: u16,
)
    requires
        uuid.len() == 16,
        token.len() == 32,
        target.host.wf(),
        host_fits(target.host),
    ensures
        ({
            let bytes = authenticate_bytes(uuid, token);
            &&& bytes.len() == 50
            &&& bytes[0] == 5 && bytes[1] == 0
            &&& bytes.subrange(2, 18) == uuid
            &&& bytes.skip(18) == token
        }),
        ({
            let bytes = connect_bytes(target);
            let end = 2 + host_len(target.host);
            &&& bytes.len() == end + 2
            &&& bytes[0] == 5 && bytes[1] == 1
            &&& spells_host(bytes, 2, 1, 0, 2, target.host)
            &&& bytes[end] * 256 + bytes[end + 1] == target.port
        }),
        ({
            let bytes = dissociate_bytes(association);
            &&& bytes.len() == 4
            &&& bytes[0] == 5 && bytes[1] == 3
            &&& bytes[2] * 256 + bytes[3] == association
        }),
{
    let proved = authenticate_bytes(uuid, token);
    assert(proved.subrange(2, 18) =~= uuid);
    assert(proved.skip(18) =~= token);
    let before = seq![VERSION, CONNECT];
    let after = be16_bytes(target.port);
    let asked = connect_bytes(target);
    assert(asked =~= before + host_bytes(tags(), target.host) + after);
    law_host_spelled(tags(), target.host, before, after);
    let end = 2 + host_len(target.host);
    assert(asked[end] == after[0] && asked[end + 1] == after[1]);
}

/// Fragments are kept together where both their association and their packet's
/// number are the same, and only there.
pub proof fn law_fragment_key(left: (u16, u16), right: (u16, u16))
    ensures
        fragment_key(left.0, left.1) == fragment_key(right.0, right.1) <==> left == right,
{
}

/// Heartbeats come at most once a second.
pub proof fn law_heartbeat(configured: u64)
    ensures
        configured < 1000 ==> heartbeat_pause(configured) == 1000,
        configured >= 1000 ==> heartbeat_pause(configured) == configured,
{
}

/// A packet is sent where it has bytes, at most 255000 of them, and a target that
/// can be named.
pub proof fn law_sendable(packet: Seq<u8>, target: EndpointModel)
    ensures
        sendable(packet, target) <==> 0 < packet.len() <= 255_000 && host_fits(target.host),
{
}

/// A fragment that disagrees with those before it on how many there are drops
/// them all, and nothing is delivered; fragments of other packets are not
/// touched by it.
pub proof fn law_disagreeing(state: Map<u32, FragmentsModel>, packet: PacketModel, other: u32)
    requires
        state.dom().contains(fragment_key(packet.association, packet.packet_id)),
        state[fragment_key(packet.association, packet.packet_id)].parts.len() != packet.total,
        other != fragment_key(packet.association, packet.packet_id),
    ensures
        accepted(state, packet).1 is None,
        !accepted(state, packet).0.dom().contains(
            fragment_key(packet.association, packet.packet_id),
        ),
        accepted(state, packet).0.dom().contains(other) == state.dom().contains(other),
        state.dom().contains(other) ==> accepted(state, packet).0[other] == state[other],
{
}

/// A packet of one fragment is delivered at once, with what it carries and where
/// it comes from; of several, none is delivered while one is missing.
pub proof fn law_delivered_whole(state: Map<u32, FragmentsModel>, packet: PacketModel)
    requires
        !state.dom().contains(fragment_key(packet.association, packet.packet_id)),
        packet.fragment == 0,
        packet.source is Some,
        packet.total > 0,
    ensures
        packet.total == 1 ==> (accepted(state, packet).1 matches Some(delivered)
            && delivered.payload == packet.payload && delivered.source == packet.source->0
            && delivered.association == packet.association),
        packet.total > 1 ==> accepted(state, packet).1 is None,
{
    let key = fragment_key(packet.association, packet.packet_id);
    let entry = FragmentsModel::fresh(packet.total as nat);
    let updated = entry.with(packet);
    assert(updated.parts.len() == packet.total);
    assert(updated.parts[0] == Some(packet.payload));
    if packet.total == 1 {
        assert(updated.complete());
        reveal_with_fuel(joined, 2);
        assert(updated.parts.drop_last() =~= Seq::empty());
        assert(joined(updated.parts) =~= packet.payload);
    } else {
        assert(updated.parts[1] is None);
        assert(!updated.complete());
    }
}

} // verus!
