//! WireGuard: the check of its configuration, and which peer a packet goes to.
use crate::crypto::{base64_bytes, base64_decode};
use crate::octets::{array16, array32, array4};
use crate::outbound::direct::zeros;
use crate::text::join;
use crate::types::{
    Endpoint, EndpointModel, Host, HostModel, IoError, IoErrorKind, IpAddress, IpCidr, IpModel,
    OutboundError,
};
use vstd::prelude::*;

verus! {

/// The smallest packet size that a tunnel uses.
pub const MIN_MTU: usize = 1280;

/// The largest packet size that a tunnel uses.
pub const MAX_MTU: usize = 65_535;

/// The first port that connections come from.
pub const FIRST_PORT: u16 = 30_000;

/// The lowest port that connections come from.
pub const LOWEST_PORT: u16 = 1024;

/// A peer of the tunnel.
#[derive(Clone, Debug, PartialEq, Eq)]
pub struct WireGuardPeerConfig {
    pub server: Endpoint,
    pub public_key: String,
    pub pre_shared_key: Option<String>,
    pub allowed_ips: Vec<IpCidr>,
    pub persistent_keepalive_seconds: Option<u64>,
    pub reserved: [u8; 3],
}

/// The configuration of a tunnel.
#[derive(Clone, Debug, PartialEq, Eq)]
pub struct WireGuardConfig {
    pub addresses: Vec<IpCidr>,
    pub private_key: String,
    pub listen_port: u16,
    pub peers: Vec<WireGuardPeerConfig>,
    pub mtu: usize,
}

/// A tunnel: its addresses of either family, and the next port.
pub struct WireGuardOutbound {
    pub config: WireGuardConfig,
    pub local_v4: Option<IpAddress>,
    pub local_v6: Option<IpAddress>,
    pub next_port: u16,
}

/// The bytes of a key, or why there are none.
pub open spec fn key_of(field: Seq<char>, value: Seq<char>) -> Result<Seq<u8>, Seq<char>> {
    match base64_bytes(value) {
        Err(error) => Err("WireGuard "@ + field + ": "@ + error),
        Ok(bytes) => if bytes.len() == 32 {
            Ok(bytes)
        } else {
            Err("WireGuard "@ + field + " must decode to 32 bytes"@)
        },
    }
}

/// The key that some bytes are; `bytes` is what the text of a field gave.
pub fn take_key(field: &str, bytes: Result<Vec<u8>, String>) -> (key: Result<
    [u8; 32],
    OutboundError,
>)
    ensures
        match bytes {
            Err(error) => key matches Err(refused) && refused.message@ == "WireGuard "@ + field@
                + ": "@ + error@,
            Ok(bytes) => if bytes@.len() == 32 {
                key matches Ok(found) && found@ == bytes@
            } else {
                key matches Err(refused) && refused.message@ == "WireGuard "@ + field@
                    + " must decode to 32 bytes"@
            },
        },
{
    match bytes {
        Err(error) => {
            let head = join("WireGuard ", field);
            let middle = join(head.as_str(), ": ");
            Err(OutboundError { message: join(middle.as_str(), error.as_str()) })
        },
        Ok(bytes) => {
            if bytes.len() == 32 {
                let key = array32(bytes.as_slice(), 0);
                assert(key@ =~= bytes@);
                Ok(key)
            } else {
                let head = join("WireGuard ", field);
                Err(OutboundError { message: join(head.as_str(), " must decode to 32 bytes") })
            }
        },
    }
}

/// The key that a text writes.
pub fn decode_key(field: &str, value: &str) -> (key: Result<[u8; 32], OutboundError>)
    ensures
        match key_of(field@, value@) {
            Ok(bytes) => key matches Ok(found) && found@ == bytes,
            Err(message) => key matches Err(error) && error.message@ == message,
        },
{
    take_key(field, base64_decode(value))
}

/// Why a key is refused; `None` where it is not.
pub open spec fn key_fault(field: Seq<char>, value: Seq<char>) -> Option<Seq<char>> {
    match key_of(field, value) {
        Ok(_) => None,
        Err(message) => Some(message),
    }
}

/// Why a peer is refused; `None` where it is not.
pub open spec fn peer_fault(peer: WireGuardPeerConfig) -> Option<Seq<char>> {
    if key_fault("peer public_key"@, peer.public_key@) is Some {
        key_fault("peer public_key"@, peer.public_key@)
    } else if peer.pre_shared_key is Some && key_fault(
        "peer pre_shared_key"@,
        peer.pre_shared_key->Some_0@,
    ) is Some {
        key_fault("peer pre_shared_key"@, peer.pre_shared_key->Some_0@)
    } else if peer.allowed_ips@.len() == 0 {
        Some("WireGuard peer requires allowed_ips"@)
    } else {
        None
    }
}

/// What is said of the first peer that is refused.
pub open spec fn peers_fault(peers: Seq<WireGuardPeerConfig>) -> Option<Seq<char>>
    decreases peers.len(),
{
    if peers.len() == 0 {
        None
    } else if peer_fault(peers[0]) is Some {
        peer_fault(peers[0])
    } else {
        peers_fault(peers.skip(1))
    }
}

/// Why a configuration is refused; `None` where it is not.
pub open spec fn config_fault(config: WireGuardConfig) -> Option<Seq<char>> {
    if config.addresses@.len() == 0 {
        Some("WireGuard endpoint requires at least one address"@)
    } else if config.peers@.len() == 0 {
        Some("WireGuard endpoint requires at least one peer"@)
    } else if key_fault("private_key"@, config.private_key@) is Some {
        key_fault("private_key"@, config.private_key@)
    } else {
        peers_fault(config.peers@)
    }
}

/// The first address of a family.
pub open spec fn first_of(addresses: Seq<IpCidr>, v6: bool) -> Option<IpAddress>
    decreases addresses.len(),
{
    if addresses.len() == 0 {
        None
    } else if (addresses[0].address is V6) == v6 {
        Some(addresses[0].address)
    } else {
        first_of(addresses.skip(1), v6)
    }
}

fn find_address(addresses: &Vec<IpCidr>, v6: bool) -> (address: Option<IpAddress>)
    ensures
        address == first_of(addresses@, v6),
{
    assert(addresses@.skip(0) =~= addresses@);
    for i in 0..addresses.len()
        invariant
            first_of(addresses@.skip(i as int), v6) == first_of(addresses@, v6),
    {
        assert(addresses@.skip(i as int)[0] == addresses@[i as int]);
        assert(addresses@.skip(i as int).skip(1) =~= addresses@.skip(i + 1));
        let address = addresses[i].address;
        let is_v6 = match address {
            IpAddress::V6(_) => true,
            IpAddress::V4(_) => false,
        };
        if is_v6 == v6 {
            return Some(address);
        }
    }
    assert(addresses@.skip(addresses@.len() as int).len() == 0);
    None
}

fn check_peer(peer: &WireGuardPeerConfig) -> (done: Result<(), OutboundError>)
    ensures
        match peer_fault(*peer) {
            None => done is Ok,
            Some(message) => done matches Err(error) && error.message@ == message,
        },
{
    match decode_key("peer public_key", peer.public_key.as_str()) {
        Ok(_) => {},
        Err(error) => return Err(error),
    }
    if let Some(key) = &peer.pre_shared_key {
        match decode_key("peer pre_shared_key", key.as_str()) {
            Ok(_) => {},
            Err(error) => return Err(error),
        }
    }
    if peer.allowed_ips.len() == 0 {
        return Err(OutboundError::new("WireGuard peer requires allowed_ips"));
    }
    Ok(())
}

/// A packet size within limits.
pub open spec fn limited_mtu(mtu: usize) -> usize {
    if mtu < MIN_MTU {
        MIN_MTU
    } else if mtu > MAX_MTU {
        MAX_MTU
    } else {
        mtu
    }
}

impl WireGuardOutbound {
    pub fn new(config: WireGuardConfig) -> (made: Result<WireGuardOutbound, OutboundError>)
        ensures
            match config_fault(config) {
                Some(message) => made matches Err(error) && error.message@ == message,
                None => made matches Ok(outbound) && outbound.config == config
                    && outbound.local_v4 == first_of(config.addresses@, false)
                    && outbound.local_v6 == first_of(config.addresses@, true)
                    && outbound.next_port == FIRST_PORT,
            },
    {
        if config.addresses.len() == 0 {
            return Err(OutboundError::new("WireGuard endpoint requires at least one address"));
        }
        if config.peers.len() == 0 {
            return Err(OutboundError::new("WireGuard endpoint requires at least one peer"));
        }
        match decode_key("private_key", config.private_key.as_str()) {
            Ok(_) => {},
            Err(error) => return Err(error),
        }
        assert(config.peers@.skip(0) =~= config.peers@);
        for i in 0..config.peers.len()
            invariant
                config.addresses@.len() > 0,
                config.peers@.len() > 0,
                key_fault("private_key"@, config.private_key@) is None,
                peers_fault(config.peers@.skip(i as int)) == peers_fault(config.peers@),
        {
            assert(config.peers@.skip(i as int)[0] == config.peers@[i as int]);
            assert(config.peers@.skip(i as int).skip(1) =~= config.peers@.skip(i + 1));
            match check_peer(&config.peers[i]) {
                Ok(()) => {},
                Err(error) => return Err(error),
            }
        }
        assert(config.peers@.skip(config.peers@.len() as int).len() == 0);
        let local_v4 = find_address(&config.addresses, false);
        let local_v6 = find_address(&config.addresses, true);
        Ok(WireGuardOutbound { config, local_v4, local_v6, next_port: FIRST_PORT })
    }

    /// The packet size of the tunnel: what is configured, within limits.
    pub fn mtu(&self) -> (mtu: usize)
        ensures
            mtu == limited_mtu(self.config.mtu),
    {
        if self.config.mtu < MIN_MTU {
            MIN_MTU
        } else if self.config.mtu > MAX_MTU {
            MAX_MTU
        } else {
            self.config.mtu
        }
    }

    /// Where a connection to a remote address comes from. Ports come round
    /// again; those that are too low give way to the lowest allowed.
    pub fn local_for(&mut self, remote: &IpAddress) -> (local: Result<Endpoint, OutboundError>)
        ensures
            final(self).config == old(self).config,
            final(self).local_v4 == old(self).local_v4,
            final(self).local_v6 == old(self).local_v6,
            ({
                let address = if *remote is V4 {
                    old(self).local_v4
                } else {
                    old(self).local_v6
                };
                match address {
                    None => {
                        &&& local matches Err(error) && error.message@
                            == "WireGuard endpoint has no address for target family"@
                        &&& final(self).next_port == old(self).next_port
                    },
                    Some(ip) => {
                        &&& local matches Ok(endpoint) && endpoint@ == (EndpointModel {
                            host: HostModel::Ip(ip@),
                            port: if old(self).next_port < LOWEST_PORT {
                                LOWEST_PORT
                            } else {
                                old(self).next_port
                            },
                        })
                        &&& final(self).next_port == (if old(self).next_port == u16::MAX {
                            0
                        } else {
                            old(self).next_port + 1
                        })
                    },
                }
            }),
            (local_view(local), final(self).next_port) == local_end(
                if *remote is V4 {
                    old(self).local_v4
                } else {
                    old(self).local_v6
                },
                old(self).next_port,
            ),
    {
        let address = match remote {
            IpAddress::V4(_) => self.local_v4,
            IpAddress::V6(_) => self.local_v6,
        };
        match address {
            None => Err(
                OutboundError::new("WireGuard endpoint has no address for target family"),
            ),
            Some(ip) => {
                let port: u16 = if self.next_port < LOWEST_PORT {
                    LOWEST_PORT
                } else {
                    self.next_port
                };
                self.next_port = if self.next_port == u16::MAX {
                    0
                } else {
                    self.next_port + 1
                };
                Ok(Endpoint::new(Host::Ip(ip), port))
            },
        }
    }

    /// The peer that a packet goes to: the first that its destination is
    /// allowed for.
    pub fn peer_of_packet(&self, packet: &[u8]) -> (index: Option<usize>)
        ensures
            match destination(packet@) {
                None => index is None,
                Some(address) => match index {
                    Some(index) => {
                        &&& index < self.config.peers@.len()
                        &&& allowed(self.config.peers@[index as int].allowed_ips@, address)
                        &&& forall|j: int|
                            0 <= j < index ==> !allowed(
                                (#[trigger] self.config.peers@[j]).allowed_ips@,
                                address,
                            )
                    },
                    None => forall|j: int|
                        0 <= j < self.config.peers@.len() ==> !allowed(
                            (#[trigger] self.config.peers@[j]).allowed_ips@,
                            address,
                        ),
                },
            },
            match destination(packet@) {
                None => index is None,
                Some(address) => match first_allowed(self.config.peers@, address) {
                    Some(at) => index == Some(at as usize),
                    None => index is None,
                },
            },
    {
        match destination_of(packet) {
            None => None,
            Some(address) => {
                let index = self.peer_for(&address);
                proof {
                    match index {
                        Some(at) => law_first_peer(self.config.peers@, address@, at as int),
                        None => law_no_peer(self.config.peers@, address@),
                    }
                }
                index
            },
        }
    }

    /// The first peer that a destination is allowed to go to.
    pub fn peer_for(&self, destination: &IpAddress) -> (index: Option<usize>)
        ensures
            match index {
                Some(index) => {
                    &&& index < self.config.peers@.len()
                    &&& allowed(self.config.peers@[index as int].allowed_ips@, destination@)
                    &&& forall|j: int|
                        0 <= j < index ==> !allowed(
                            (#[trigger] self.config.peers@[j]).allowed_ips@,
                            destination@,
                        )
                },
                None => forall|j: int|
                    0 <= j < self.config.peers@.len() ==> !allowed(
                        (#[trigger] self.config.peers@[j]).allowed_ips@,
                        destination@,
                    ),
            },
    {
        for i in 0..self.config.peers.len()
            invariant
                forall|j: int|
                    0 <= j < i ==> !allowed(
                        (#[trigger] self.config.peers@[j]).allowed_ips@,
                        destination@,
                    ),
        {
            if is_allowed(&self.config.peers[i].allowed_ips, destination) {
                return Some(i);
            }
        }
        None
    }
}

/// What a local end that could be had is.
pub open spec fn local_view(local: Result<Endpoint, OutboundError>) -> Option<EndpointModel> {
    match local {
        Ok(endpoint) => Some(endpoint@),
        Err(_) => None,
    }
}

/// The local end of a connection from an address, and the port that comes next.
pub open spec fn local_end(address: Option<IpAddress>, next: u16) -> (Option<EndpointModel>, u16) {
    match address {
        None => (None, next),
        Some(ip) => (
            Some(
                EndpointModel {
                    host: HostModel::Ip(ip@),
                    port: if next < LOWEST_PORT {
                        LOWEST_PORT
                    } else {
                        next
                    },
                },
            ),
            if next == u16::MAX {
                0
            } else {
                (next + 1) as u16
            },
        ),
    }
}

/// The first of some peers that a destination is allowed to go to.
pub open spec fn first_allowed(peers: Seq<WireGuardPeerConfig>, address: IpModel) -> Option<int>
    decreases peers.len(),
{
    if peers.len() == 0 {
        None
    } else if allowed(peers[0].allowed_ips@, address) {
        Some(0)
    } else {
        match first_allowed(peers.skip(1), address) {
            Some(at) => Some(at + 1),
            None => None,
        }
    }
}

/// The address that an IP packet goes to, where its header is whole.
pub open spec fn destination(packet: Seq<u8>) -> Option<IpModel> {
    if packet.len() >= 20 && packet[0] / 16 == 4 {
        Some(IpModel::V4(packet.subrange(16, 20)))
    } else if packet.len() >= 40 && packet[0] / 16 == 6 {
        Some(IpModel::V6(packet.subrange(24, 40)))
    } else {
        None
    }
}

pub fn destination_of(packet: &[u8]) -> (address: Option<IpAddress>)
    ensures
        match destination(packet@) {
            None => address is None,
            Some(model) => address matches Some(found) && found@ == model,
        },
{
    let len: usize = packet.len();
    if len >= 20 && packet[0] / 16 == 4 {
        Some(IpAddress::V4(array4(packet, 16)))
    } else if len >= 40 && packet[0] / 16 == 6 {
        Some(IpAddress::V6(array16(packet, 24)))
    } else {
        None
    }
}

/// Whether an endpoint is the first of some that equals another.
pub open spec fn first_at(endpoints: Seq<Endpoint>, source: EndpointModel, index: int) -> bool {
    &&& 0 <= index < endpoints.len()
    &&& endpoints[index]@ == source
    &&& forall|j: int| 0 <= j < index ==> (#[trigger] endpoints[j])@ != source
}

/// The peer that a datagram comes from.
pub fn peer_at(endpoints: &Vec<Endpoint>, source: &Endpoint) -> (index: Option<usize>)
    ensures
        match index {
            Some(index) => first_at(endpoints@, source@, index as int),
            None => forall|j: int|
                0 <= j < endpoints@.len() ==> (#[trigger] endpoints@[j])@ != source@,
        },
{
    for i in 0..endpoints.len()
        invariant
            forall|j: int| 0 <= j < i ==> (#[trigger] endpoints@[j])@ != source@,
    {
        if endpoints[i].same(source) {
            return Some(i);
        }
    }
    None
}

/// What a tunnel made of its input.
pub enum TunnelOutput {
    ToNetwork(Vec<u8>),
    ToTunnel(Vec<u8>),
    Done,
    Failed,
}

/// What is done with the output of a tunnel. After sending or delivering, the
/// tunnel is asked again, with no input.
pub enum TunnelStep {
    Send(Vec<u8>),
    Deliver(Vec<u8>),
    Stop,
}

/// What a tunnel made: a packet for the network or for the tunnel.
pub enum OutputModel {
    ToNetwork(Seq<u8>),
    ToTunnel(Seq<u8>),
    Nothing,
}

impl TunnelOutput {
    pub open spec fn view(&self) -> OutputModel {
        match *self {
            TunnelOutput::ToNetwork(packet) => OutputModel::ToNetwork(packet@),
            TunnelOutput::ToTunnel(packet) => OutputModel::ToTunnel(packet@),
            TunnelOutput::Done => OutputModel::Nothing,
            TunnelOutput::Failed => OutputModel::Nothing,
        }
    }
}

impl TunnelStep {
    pub open spec fn view(&self) -> OutputModel {
        match *self {
            TunnelStep::Send(packet) => OutputModel::ToNetwork(packet@),
            TunnelStep::Deliver(packet) => OutputModel::ToTunnel(packet@),
            TunnelStep::Stop => OutputModel::Nothing,
        }
    }
}

/// What is done with the output of a tunnel.
pub open spec fn carried_out(output: OutputModel, reserved: Seq<u8>) -> OutputModel {
    match output {
        OutputModel::ToNetwork(packet) => OutputModel::ToNetwork(marked(packet, reserved)),
        OutputModel::ToTunnel(packet) => OutputModel::ToTunnel(packet),
        OutputModel::Nothing => OutputModel::Nothing,
    }
}

pub fn tunnel_step(output: TunnelOutput, reserved: [u8; 3]) -> (step: TunnelStep)
    ensures
        match output {
            TunnelOutput::ToNetwork(packet) => step matches TunnelStep::Send(sent) && sent@
                == marked(packet@, reserved@),
            TunnelOutput::ToTunnel(packet) => step == TunnelStep::Deliver(packet),
            TunnelOutput::Done => step is Stop,
            TunnelOutput::Failed => step is Stop,
        },
        step@ == carried_out(output@, reserved@),
{
    match output {
        TunnelOutput::ToNetwork(packet) => {
            let mut packet = packet;
            apply_reserved(&mut packet, reserved);
            TunnelStep::Send(packet)
        },
        TunnelOutput::ToTunnel(packet) => TunnelStep::Deliver(packet),
        TunnelOutput::Done => TunnelStep::Stop,
        TunnelOutput::Failed => TunnelStep::Stop,
    }
}

/// The seconds between keepalives of a peer: what is configured, within limits.
pub open spec fn limited_keepalive(seconds: Option<u64>) -> Option<u16> {
    match seconds {
        None => None,
        Some(seconds) => Some(
            if seconds < 1 {
                1u16
            } else if seconds > 0xffff {
                0xffffu16
            } else {
                seconds as u16
            },
        ),
    }
}

pub fn keepalive(seconds: Option<u64>) -> (limited: Option<u16>)
    ensures
        limited == limited_keepalive(seconds),
{
    match seconds {
        None => None,
        Some(seconds) => {
            if seconds < 1 {
                Some(1)
            } else if seconds > 0xffff {
                Some(0xffff)
            } else {
                Some(seconds as u16)
            }
        },
    }
}

/// The bit at a place, the highest of the first byte first.
pub open spec fn bit_at(bytes: Seq<u8>, at: int) -> bool {
    (bytes[at / 8] >> ((7 - at % 8) as u8)) % 2 == 1
}

/// Whether an address lies in a block: the families are the same, and so are
/// the bits of the prefix.
pub open spec fn contains(cidr: IpCidr, address: IpModel) -> bool {
    let network = cidr.address@;
    &&& (network is V4) == (address is V4)
    &&& cidr.prefix_len <= 8 * network.octets().len()
    &&& forall|i: int|
        0 <= i < cidr.prefix_len ==> #[trigger] bit_at(network.octets(), i) == bit_at(
            address.octets(),
            i,
        )
}

fn same_bits(left: &[u8], right: &[u8], count: usize) -> (same: bool)
    requires
        left@.len() == right@.len(),
        count <= 8 * left@.len(),
        left@.len() <= 16,
    ensures
        same == (forall|i: int|
            0 <= i < count ==> #[trigger] bit_at(left@, i) == bit_at(right@, i)),
{
    for i in 0..count
        invariant
            left@.len() == right@.len(),
            count <= 8 * left@.len(),
            left@.len() <= 16,
            forall|j: int| 0 <= j < i ==> #[trigger] bit_at(left@, j) == bit_at(right@, j),
    {
        let shift: u8 = 7 - (i % 8) as u8;
        let one: bool = (left[i / 8] >> shift) % 2 == 1;
        let other: bool = (right[i / 8] >> shift) % 2 == 1;
        assert(bit_at(left@, i as int) == one);
        assert(bit_at(right@, i as int) == other);
        if one != other {
            return false;
        }
    }
    true
}

pub fn cidr_contains(cidr: &IpCidr, address: &IpAddress) -> (yes: bool)
    ensures
        yes == contains(*cidr, address@),
{
    match (&cidr.address, address) {
        (IpAddress::V4(network), IpAddress::V4(address)) => cidr.prefix_len <= 32 && same_bits(
            network,
            address,
            cidr.prefix_len as usize,
        ),
        (IpAddress::V6(network), IpAddress::V6(address)) => cidr.prefix_len <= 128 && same_bits(
            network,
            address,
            cidr.prefix_len as usize,
        ),
        _ => false,
    }
}

/// Whether one of the blocks holds an address.
pub open spec fn allowed(blocks: Seq<IpCidr>, address: IpModel) -> bool {
    exists|i: int| 0 <= i < blocks.len() && contains(#[trigger] blocks[i], address)
}

fn is_allowed(blocks: &Vec<IpCidr>, address: &IpAddress) -> (yes: bool)
    ensures
        yes == allowed(blocks@, address@),
{
    for i in 0..blocks.len()
        invariant
            forall|j: int| 0 <= j < i ==> !contains(#[trigger] blocks@[j], address@),
    {
        if cidr_contains(&blocks[i], address) {
            assert(contains(blocks@[i as int], address@));
            return true;
        }
    }
    false
}

/// A block holds its own address.
pub proof fn law_contains_own(cidr: IpCidr)
    requires
        cidr.wf(),
    ensures
        contains(cidr, cidr.address@),
{
}

/// A block with a shorter prefix holds whatever one with a longer prefix does.
pub proof fn law_shorter_prefix(longer: IpCidr, shorter: IpCidr, address: IpModel)
    requires
        shorter.address == longer.address,
        shorter.prefix_len <= longer.prefix_len,
        contains(longer, address),
    ensures
        contains(shorter, address),
{
}

/// A packet with the reserved bytes, where it has room for them.
pub open spec fn marked(packet: Seq<u8>, reserved: Seq<u8>) -> Seq<u8> {
    if packet.len() >= 4 {
        packet.take(1) + reserved + packet.skip(4)
    } else {
        packet
    }
}

/// Writes the reserved bytes into a packet that has room for them.
pub fn apply_reserved(packet: &mut Vec<u8>, reserved: [u8; 3])
    ensures
        final(packet)@ == marked(old(packet)@, reserved@),
{
    if packet.len() >= 4 {
        packet.set(1, reserved[0]);
        packet.set(2, reserved[1]);
        packet.set(3, reserved[2]);
        assert(packet@ =~= marked(old(packet)@, reserved@));
    }
}

/// Whether the socket of a tunnel is of version six, by the peers' addresses:
/// they have to be of one family.
pub fn bind_family(peers: &Vec<IpAddress>) -> (v6: Result<bool, OutboundError>)
    ensures
        ({
            let first = peers@.len() > 0 && peers@[0] is V6;
            match v6 {
                Ok(v6) => v6 == first && forall|i: int|
                    0 <= i < peers@.len() ==> (#[trigger] peers@[i] is V6) == first,
                Err(error) => error.message@
                    == "WireGuard peers must currently use one endpoint address family"@
                    && exists|i: int|
                    0 <= i < peers@.len() && (#[trigger] peers@[i] is V6) != first,
            }
        }),
{
    let first = if peers.len() > 0 {
        match peers[0] {
            IpAddress::V6(_) => true,
            IpAddress::V4(_) => false,
        }
    } else {
        false
    };
    for i in 0..peers.len()
        invariant
            first == (peers@.len() > 0 && peers@[0] is V6),
            forall|j: int| 0 <= j < i ==> (#[trigger] peers@[j] is V6) == first,
    {
        let v6 = match peers[i] {
            IpAddress::V6(_) => true,
            IpAddress::V4(_) => false,
        };
        if v6 != first {
            assert((peers@[i as int] is V6) != first);
            return Err(
                OutboundError::new(
                    "WireGuard peers must currently use one endpoint address family",
                ),
            );
        }
    }
    Ok(first)
}

/// What a receive gives of a packet, where there is room for it. Without a
/// packet the socket is closed.
pub fn poll_recv_from(
    received: Option<Result<(Vec<u8>, Endpoint), IoError>>,
    room: usize,
) -> (packet: Result<(Vec<u8>, Endpoint), IoError>)
    ensures
        match received {
            Some(Ok((bytes, source))) => if bytes@.len() <= room {
                packet == Ok::<(Vec<u8>, Endpoint), IoError>((bytes, source))
            } else {
                packet matches Err(error) && error.says(
                    IoErrorKind::InvalidInput,
                    "WireGuard UDP packet exceeds receive buffer"@,
                )
            },
            Some(Err(error)) => packet == Err::<(Vec<u8>, Endpoint), IoError>(error),
            None => packet matches Err(error) && error.says(
                IoErrorKind::Closed,
                "WireGuard UDP socket closed"@,
            ),
        },
{
    match received {
        Some(Ok((bytes, source))) => {
            if bytes.len() <= room {
                Ok((bytes, source))
            } else {
                Err(
                    IoError::new(
                        IoErrorKind::InvalidInput,
                        "WireGuard UDP packet exceeds receive buffer",
                    ),
                )
            }
        },
        Some(Err(error)) => Err(error),
        None => Err(IoError::new(IoErrorKind::Closed, "WireGuard UDP socket closed")),
    }
}

/// The address that a datagram goes to: a name has to be resolved first.
pub fn poll_send_to(target: &Endpoint) -> (address: Result<(IpAddress, u16), IoError>)
    ensures
        match target.host {
            Host::Ip(ip) => address == Ok::<(IpAddress, u16), IoError>((ip, target.port)),
            Host::Domain(_) => address matches Err(error) && error.says(
                IoErrorKind::InvalidInput,
                "WireGuard UDP target must be resolved before sending"@,
            ),
        },
{
    match &target.host {
        Host::Ip(ip) => Ok((*ip, target.port)),
        Host::Domain(_) => Err(
            IoError::new(
                IoErrorKind::InvalidInput,
                "WireGuard UDP target must be resolved before sending",
            ),
        ),
    }
}

/// A name could not be resolved; without `error` it has no address.
pub fn resolve_failed(error: Option<&str>) -> (failure: OutboundError)
    ensures
        failure.message@ == match error {
            Some(text) => "WireGuard DNS: "@ + text@,
            None => "WireGuard DNS returned no address"@,
        },
{
    match error {
        Some(text) => OutboundError { message: join("WireGuard DNS: ", text) },
        None => OutboundError::new("WireGuard DNS returned no address"),
    }
}

/// What the tunnel to a peer is made of.
pub struct PeerParts {
    pub public_key: [u8; 32],
    pub pre_shared_key: Option<[u8; 32]>,
    pub keepalive: Option<u16>,
    /// The number of the tunnel, from one on.
    pub index: u32,
}

/// What the tunnels of a configuration are made of.
pub struct ChannelParts {
    pub mtu: usize,
    pub private_key: [u8; 32],
    pub peers: Vec<PeerParts>,
    /// Where the socket for all of them is bound.
    pub bind: Endpoint,
}

/// What is said of the first key of the peers that is refused.
pub open spec fn keys_fault(peers: Seq<WireGuardPeerConfig>) -> Option<Seq<char>>
    decreases peers.len(),
{
    if peers.len() == 0 {
        None
    } else if key_fault("peer public_key"@, peers[0].public_key@) is Some {
        key_fault("peer public_key"@, peers[0].public_key@)
    } else if peers[0].pre_shared_key is Some && key_fault(
        "peer pre_shared_key"@,
        peers[0].pre_shared_key->Some_0@,
    ) is Some {
        key_fault("peer pre_shared_key"@, peers[0].pre_shared_key->Some_0@)
    } else {
        keys_fault(peers.skip(1))
    }
}

/// Whether the resolved addresses are of one family.
pub open spec fn one_family(resolved: Seq<IpAddress>) -> bool {
    forall|i: int| 0 <= i < resolved.len() ==> (#[trigger] resolved[i] is V6) == (resolved[0] is V6)
}

/// Why there can be no tunnels; `None` where there can.
pub open spec fn channel_fault(config: WireGuardConfig, resolved: Seq<IpAddress>) -> Option<
    Seq<char>,
> {
    if key_fault("private_key"@, config.private_key@) is Some {
        key_fault("private_key"@, config.private_key@)
    } else if keys_fault(config.peers@) is Some {
        keys_fault(config.peers@)
    } else if !one_family(resolved) {
        Some("WireGuard peers must currently use one endpoint address family"@)
    } else {
        None
    }
}

/// Whether a tunnel is made of what a peer's configuration says.
pub open spec fn is_peer(parts: PeerParts, peer: WireGuardPeerConfig, at: int) -> bool {
    &&& key_of("peer public_key"@, peer.public_key@) is Ok
    &&& parts.public_key@ == key_of("peer public_key"@, peer.public_key@)->Ok_0
    &&& match (parts.pre_shared_key, peer.pre_shared_key) {
        (Some(key), Some(text)) => {
            &&& key_of("peer pre_shared_key"@, text@) is Ok
            &&& key@ == key_of("peer pre_shared_key"@, text@)->Ok_0
        },
        (None, None) => true,
        _ => false,
    }
    &&& parts.keepalive == limited_keepalive(peer.persistent_keepalive_seconds)
    &&& parts.index == at + 1
}

fn peer_parts(peer: &WireGuardPeerConfig, at: usize) -> (parts: Result<PeerParts, OutboundError>)
    requires
        at < u32::MAX,
    ensures
        match keys_fault(seq![*peer]) {
            Some(message) => parts matches Err(error) && error.message@ == message,
            None => parts matches Ok(parts) && is_peer(parts, *peer, at as int),
        },
{
    assert(seq![*peer].skip(1) =~= Seq::empty());
    assert(keys_fault(seq![*peer].skip(1)) is None);
    let public_key = match decode_key("peer public_key", peer.public_key.as_str()) {
        Ok(key) => key,
        Err(error) => return Err(error),
    };
    let pre_shared_key = match &peer.pre_shared_key {
        Some(text) => match decode_key("peer pre_shared_key", text.as_str()) {
            Ok(key) => Some(key),
            Err(error) => return Err(error),
        },
        None => None,
    };
    Ok(
        PeerParts {
            public_key,
            pre_shared_key,
            keepalive: keepalive(peer.persistent_keepalive_seconds),
            index: at as u32 + 1,
        },
    )
}

impl WireGuardOutbound {
    /// What the tunnels are made of, once the addresses of the peers are known.
    pub fn channel(&self, resolved: &Vec<IpAddress>) -> (parts: Result<
        ChannelParts,
        OutboundError,
    >)
        requires
            resolved@.len() == self.config.peers@.len(),
            self.config.peers@.len() < u32::MAX,
        ensures
            match channel_fault(self.config, resolved@) {
                Some(message) => parts matches Err(error) && error.message@ == message,
                None => parts matches Ok(parts) && {
                    &&& parts.mtu == limited_mtu(self.config.mtu)
                    &&& key_of("private_key"@, self.config.private_key@) is Ok
                    &&& parts.private_key@ == key_of(
                        "private_key"@,
                        self.config.private_key@,
                    )->Ok_0
                    &&& parts.peers@.len() == self.config.peers@.len()
                    &&& forall|i: int|
                        0 <= i < parts.peers@.len() ==> is_peer(
                            #[trigger] parts.peers@[i],
                            self.config.peers@[i],
                            i,
                        )
                    &&& parts.bind@ == (EndpointModel {
                        host: if resolved@.len() > 0 && resolved@[0] is V6 {
                            HostModel::Ip(IpModel::V6(zeros(16)))
                        } else {
                            HostModel::Ip(IpModel::V4(zeros(4)))
                        },
                        port: self.config.listen_port,
                    })
                },
            },
    {
        let private_key = match decode_key("private_key", self.config.private_key.as_str()) {
            Ok(key) => key,
            Err(error) => return Err(error),
        };
        let mut peers: Vec<PeerParts> = Vec::new();
        let ghost all = self.config.peers@;
        assert(all.skip(0) =~= all);
        for i in 0..self.config.peers.len()
            invariant
                all == self.config.peers@,
                all.len() < u32::MAX,
                key_fault("private_key"@, self.config.private_key@) is None,
                keys_fault(all.skip(i as int)) == keys_fault(all),
                peers@.len() == i,
                forall|j: int| 0 <= j < i ==> is_peer(#[trigger] peers@[j], all[j], j),
        {
            let ghost rest = all.skip(i as int);
            let ghost one = seq![all[i as int]];
            assert(rest[0] == all[i as int]);
            assert(rest.skip(1) =~= all.skip(i + 1));
            assert(one.skip(1) =~= Seq::empty());
            assert(keys_fault(one.skip(1)) is None);
            match peer_parts(&self.config.peers[i], i) {
                Ok(parts) => peers.push(parts),
                Err(error) => return Err(error),
            }
        }
        assert(all.skip(all.len() as int).len() == 0);
        let v6 = match bind_family(resolved) {
            Ok(v6) => v6,
            Err(error) => return Err(error),
        };
        let host = if v6 {
            let any = [0u8, 0, 0, 0, 0, 0, 0, 0, 0, 0, 0, 0, 0, 0, 0, 0];
            assert(any@ =~= zeros(16));
            Host::Ip(IpAddress::V6(any))
        } else {
            let any = [0u8, 0, 0, 0];
            assert(any@ =~= zeros(4));
            Host::Ip(IpAddress::V4(any))
        };
        Ok(
            ChannelParts {
                mtu: self.mtu(),
                private_key,
                peers,
                bind: Endpoint::new(host, self.config.listen_port),
            },
        )
    }
}

proof fn lemma_byte_bits(left: u8, right: u8, count: u8)
    requires
        count <= 8,
    ensures
        (forall|i: u8| #![trigger left >> i] #![trigger right >> i] 8 - count <= i < 8 ==> (left >> i) % 2 == (right >> i) % 2)
            <==> (count > 0 ==> left >> ((8 - count) as u8) == right >> ((8 - count) as u8)),
{
    let shift = (8 - count) as u8;
    assert(count <= 8 && shift == 8 - count && count > 0 ==> ((left >> shift == right >> shift)
        <==> ((shift <= 7 ==> (left >> 7u8) % 2 == (right >> 7u8) % 2) && (shift <= 6 ==> (left
        >> 6u8) % 2 == (right >> 6u8) % 2) && (shift <= 5 ==> (left >> 5u8) % 2 == (right >> 5u8)
        % 2) && (shift <= 4 ==> (left >> 4u8) % 2 == (right >> 4u8) % 2) && (shift <= 3 ==> (left
        >> 3u8) % 2 == (right >> 3u8) % 2) && (shift <= 2 ==> (left >> 2u8) % 2 == (right >> 2u8)
        % 2) && (shift <= 1 ==> (left >> 1u8) % 2 == (right >> 1u8) % 2) && (shift <= 0 ==> (left
        >> 0u8) % 2 == (right >> 0u8) % 2)))) by (bit_vector);
}

/// A block holds an address of its family where the octets that its prefix
/// covers whole are the same, and so are the highest bits of the octet that it
/// covers in part; it holds no address of the other family.
pub proof fn law_contains_octets(cidr: IpCidr, address: IpModel)
    requires
        cidr.wf(),
        address.wf(),
    ensures
        (cidr.address is V6) != (address is V6) ==> !contains(cidr, address),
        (cidr.address is V6) == (address is V6) ==> (contains(cidr, address) <==> {
            let network = cidr.address@.octets();
            let octets = address.octets();
            let whole = cidr.prefix_len as int / 8;
            let part = cidr.prefix_len % 8;
            &&& forall|i: int| 0 <= i < whole ==> network[i] == octets[i]
            &&& part > 0 ==> network[whole] >> ((8 - part) as u8) == octets[whole] >> ((8
                - part) as u8)
        }),
{
    let network = cidr.address@.octets();
    let octets = address.octets();
    let whole = cidr.prefix_len as int / 8;
    let part = (cidr.prefix_len % 8) as u8;
    if (cidr.address is V6) == (address is V6) {
        if contains(cidr, address) {
            assert forall|i: int| 0 <= i < whole implies network[i] == octets[i] by {
                assert forall|k: u8| #![trigger network[i] >> k] #![trigger octets[i] >> k]
                    0 <= k < 8 implies (network[i] >> k) % 2 == (octets[i] >> k) % 2 by {
                    assert(bit_at(network, 8 * i + 7 - k) == bit_at(octets, 8 * i + 7 - k));
                }
                lemma_byte_bits(network[i], octets[i], 8);
                let a = network[i];
                let b = octets[i];
                assert(a >> 0u8 == b >> 0u8 ==> a == b) by (bit_vector);
            }
            if part > 0 {
                assert forall|k: u8| #![trigger network[whole] >> k] #![trigger octets[whole] >> k]
                    8 - part <= k < 8 implies (network[whole] >> k) % 2 == (octets[whole] >> k)
                    % 2 by {
                    assert(bit_at(network, 8 * whole + 7 - k) == bit_at(
                        octets,
                        8 * whole + 7 - k,
                    ));
                }
                lemma_byte_bits(network[whole], octets[whole], part);
            }
        }
        if (forall|i: int| 0 <= i < whole ==> network[i] == octets[i]) && (part > 0
            ==> network[whole] >> ((8 - part) as u8) == octets[whole] >> ((8 - part) as u8)) {
            assert forall|i: int| 0 <= i < cidr.prefix_len implies #[trigger] bit_at(network, i)
                == bit_at(octets, i) by {
                if i / 8 < whole {
                    assert(network[i / 8] == octets[i / 8]);
                } else {
                    assert(i / 8 == whole);
                    lemma_byte_bits(network[whole], octets[whole], part);
                    let k = (7 - i % 8) as u8;
                    assert(8 - part <= k < 8);
                    let left = network[whole] >> k;
                    let right = octets[whole] >> k;
                    assert(left % 2 == right % 2);
                    let b = right;
                    assert(left % 2 == 0 || left % 2 == 1);
                }
            }
        }
    }
}

/// A key is thirty-two bytes in base64.
pub proof fn law_key(field: Seq<char>, value: Seq<char>)
    ensures
        key_of(field, value) is Ok <==> base64_bytes(value) is Ok && base64_bytes(value)->Ok_0.len()
            == 32,
        key_of(field, value) matches Ok(key) ==> base64_bytes(value) == Ok::<Seq<u8>, Seq<char>>(
            key,
        ),
        key_fault(field, value) is None <==> key_of(field, value) is Ok,
{
}

/// Where a packet goes: of version four by its octets sixteen to nineteen, of
/// version six by its octets twenty-four to thirty-nine; a packet without a
/// whole header goes nowhere.
pub proof fn law_destination(packet: Seq<u8>)
    ensures
        packet.len() >= 20 && 64 <= packet[0] < 80 ==> (destination(packet) matches Some(
            IpModel::V4(octets),
        ) && octets.len() == 4 && forall|i: int| 0 <= i < 4 ==> octets[i] == packet[16 + i]),
        packet.len() >= 40 && 96 <= packet[0] < 112 ==> (destination(packet) matches Some(
            IpModel::V6(octets),
        ) && octets.len() == 16 && forall|i: int| 0 <= i < 16 ==> octets[i] == packet[24 + i]),
        packet.len() < 20 || !(64 <= packet[0] < 80 || 96 <= packet[0] < 112) ==> destination(
            packet,
        ) is None,
        packet.len() < 40 && !(64 <= packet[0] < 80) ==> destination(packet) is None,
{
}

/// The reserved bytes take the places of the second, third and fourth byte of a
/// packet that has them, and nothing else changes.
pub proof fn law_marked(packet: Seq<u8>, reserved: Seq<u8>, at: int)
    requires
        reserved.len() == 3,
        0 <= at < packet.len(),
    ensures
        marked(packet, reserved).len() == packet.len(),
        packet.len() >= 4 && 1 <= at <= 3 ==> marked(packet, reserved)[at] == reserved[at - 1],
        packet.len() < 4 || at == 0 || at > 3 ==> marked(packet, reserved)[at] == packet[at],
{
}

/// Packets are at least 1280 and at most 65535 bytes long, keepalives come at
/// most once a second and at least every 65535 seconds, and ports count on from
/// 30000, never below 1024.
pub proof fn law_limits(mtu: usize, seconds: u64)
    ensures
        mtu < 1280 ==> limited_mtu(mtu) == 1280,
        1280 <= mtu <= 65535 ==> limited_mtu(mtu) == mtu,
        mtu > 65535 ==> limited_mtu(mtu) == 65535,
        limited_keepalive(None) is None,
        limited_keepalive(Some(0)) == Some(1u16),
        1 <= seconds <= 65535 ==> limited_keepalive(Some(seconds)) == Some(seconds as u16),
        seconds > 65535 ==> limited_keepalive(Some(seconds)) == Some(65535u16),
        FIRST_PORT == 30000,
        LOWEST_PORT == 1024,
{
}

/// The address of a family is the first that is configured; there is none where
/// none is.
pub proof fn law_first_address(addresses: Seq<IpCidr>, v6: bool, at: int)
    requires
        0 <= at < addresses.len(),
        (addresses[at].address is V6) == v6,
        forall|i: int| 0 <= i < at ==> ((#[trigger] addresses[i]).address is V6) != v6,
    ensures
        first_of(addresses, v6) == Some(addresses[at].address),
    decreases at,
{
    if at > 0 {
        let rest = addresses.skip(1);
        assert((addresses[0].address is V6) != v6);
        assert forall|i: int| 0 <= i < at - 1 implies ((#[trigger] rest[i]).address is V6) != v6 by {
            assert(rest[i] == addresses[i + 1]);
        }
        law_first_address(rest, v6, at - 1);
    }
}

/// Without an address of a family there is none to give.
pub proof fn law_no_address(addresses: Seq<IpCidr>, v6: bool)
    requires
        forall|i: int|
            0 <= i < addresses.len() ==> ((#[trigger] addresses[i]).address is V6) != v6,
    ensures
        first_of(addresses, v6) is None,
    decreases addresses.len(),
{
    if addresses.len() > 0 {
        let rest = addresses.skip(1);
        assert((addresses[0].address is V6) != v6);
        assert forall|i: int| 0 <= i < rest.len() implies ((#[trigger] rest[i]).address is V6)
            != v6 by {
            assert(rest[i] == addresses[i + 1]);
        }
        law_no_address(rest, v6);
    }
}

/// A configuration is accepted where it has an address and a peer, all its keys
/// can be read, and each peer is allowed some addresses.
pub proof fn law_config_accepted(config: WireGuardConfig)
    ensures
        config_fault(config) is None <==> {
            &&& config.addresses@.len() > 0
            &&& config.peers@.len() > 0
            &&& key_of("private_key"@, config.private_key@) is Ok
            &&& forall|i: int|
                0 <= i < config.peers@.len() ==> {
                    let peer = #[trigger] config.peers@[i];
                    &&& key_of("peer public_key"@, peer.public_key@) is Ok
                    &&& peer.pre_shared_key matches Some(text) ==> key_of(
                        "peer pre_shared_key"@,
                        text@,
                    ) is Ok
                    &&& peer.allowed_ips@.len() > 0
                }
        },
{
    lemma_peers_accepted(config.peers@);
}

proof fn lemma_peers_accepted(peers: Seq<WireGuardPeerConfig>)
    ensures
        peers_fault(peers) is None <==> forall|i: int|
            0 <= i < peers.len() ==> {
                let peer = #[trigger] peers[i];
                &&& key_of("peer public_key"@, peer.public_key@) is Ok
                &&& peer.pre_shared_key matches Some(text) ==> key_of(
                    "peer pre_shared_key"@,
                    text@,
                ) is Ok
                &&& peer.allowed_ips@.len() > 0
            },
    decreases peers.len(),
{
    if peers.len() > 0 {
        let rest = peers.skip(1);
        lemma_peers_accepted(rest);
        assert forall|i: int| 0 <= i < rest.len() implies rest[i] == #[trigger] peers[i + 1] by {}
        if peers_fault(peers) is None {
            assert forall|i: int| 0 <= i < peers.len() implies {
                let peer = #[trigger] peers[i];
                &&& key_of("peer public_key"@, peer.public_key@) is Ok
                &&& peer.pre_shared_key matches Some(text) ==> key_of(
                    "peer pre_shared_key"@,
                    text@,
                ) is Ok
                &&& peer.allowed_ips@.len() > 0
            } by {
                if i > 0 {
                    assert(rest[i - 1] == peers[i]);
                }
            }
        }
        if forall|i: int|
            0 <= i < peers.len() ==> {
                let peer = #[trigger] peers[i];
                &&& key_of("peer public_key"@, peer.public_key@) is Ok
                &&& peer.pre_shared_key matches Some(text) ==> key_of(
                    "peer pre_shared_key"@,
                    text@,
                ) is Ok
                &&& peer.allowed_ips@.len() > 0
            } {
            assert(peer_fault(peers[0]) is None);
            assert forall|i: int| 0 <= i < rest.len() implies {
                let peer = #[trigger] rest[i];
                &&& key_of("peer public_key"@, peer.public_key@) is Ok
                &&& peer.pre_shared_key matches Some(text) ==> key_of(
                    "peer pre_shared_key"@,
                    text@,
                ) is Ok
                &&& peer.allowed_ips@.len() > 0
            } by {
                assert(rest[i] == peers[i + 1]);
            }
        }
    }
}

/// The tunnel to a peer has the keys that its configuration writes, and the
/// tunnels are numbered from one on.
pub proof fn law_peer_parts(parts: PeerParts, peer: WireGuardPeerConfig, at: int)
    requires
        is_peer(parts, peer, at),
    ensures
        base64_bytes(peer.public_key@) == Ok::<Seq<u8>, Seq<char>>(parts.public_key@),
        parts.pre_shared_key is Some <==> peer.pre_shared_key is Some,
        parts.pre_shared_key matches Some(key) ==> base64_bytes(peer.pre_shared_key->0@) == Ok::<
            Seq<u8>,
            Seq<char>,
        >(key@),
        parts.index == at + 1,
        parts.keepalive is Some <==> peer.persistent_keepalive_seconds is Some,
{
}

/// An address is allowed where one of the blocks holds it.
pub proof fn law_allowed(blocks: Seq<IpCidr>, address: IpModel, at: int)
    requires
        0 <= at < blocks.len(),
    ensures
        contains(blocks[at], address) ==> allowed(blocks, address),
        !allowed(blocks, address) ==> !contains(blocks[at], address),
        !allowed(Seq::empty(), address),
{
}

/// A packet goes to the first peer that its destination is allowed for.
pub proof fn law_first_peer(peers: Seq<WireGuardPeerConfig>, address: IpModel, at: int)
    requires
        0 <= at < peers.len(),
        allowed(peers[at].allowed_ips@, address),
        forall|i: int| 0 <= i < at ==> !allowed((#[trigger] peers[i]).allowed_ips@, address),
    ensures
        first_allowed(peers, address) == Some(at),
    decreases at,
{
    if at > 0 {
        let rest = peers.skip(1);
        assert(!allowed(peers[0].allowed_ips@, address));
        assert forall|i: int| 0 <= i < at - 1 implies !allowed(
            (#[trigger] rest[i]).allowed_ips@,
            address,
        ) by {
            assert(rest[i] == peers[i + 1]);
        }
        law_first_peer(rest, address, at - 1);
    }
}

/// A packet that no peer is allowed for goes to none.
pub proof fn law_no_peer(peers: Seq<WireGuardPeerConfig>, address: IpModel)
    requires
        forall|i: int|
            0 <= i < peers.len() ==> !allowed((#[trigger] peers[i]).allowed_ips@, address),
    ensures
        first_allowed(peers, address) is None,
    decreases peers.len(),
{
    if peers.len() > 0 {
        let rest = peers.skip(1);
        assert(!allowed(peers[0].allowed_ips@, address));
        assert forall|i: int| 0 <= i < rest.len() implies !allowed(
            (#[trigger] rest[i]).allowed_ips@,
            address,
        ) by {
            assert(rest[i] == peers[i + 1]);
        }
        law_no_peer(rest, address);
    }
}

/// Two connections one after the other come from the same address and from
/// different ports, none of them below 1024; without an address of the remote's
/// family there is no connection.
pub proof fn law_local_ends(ip: IpAddress, next: u16)
    ensures
        local_end(None, next) == (None::<EndpointModel>, next),
        ({
            let (first, then) = local_end(Some(ip), next);
            let (second, _) = local_end(Some(ip), then);
            &&& first is Some && second is Some
            &&& first->0.host == HostModel::Ip(ip@) && second->0.host == HostModel::Ip(ip@)
            &&& first->0.port >= 1024 && second->0.port >= 1024
            &&& next >= 1024 ==> first->0.port == next
            &&& 1024 <= next < 65535 ==> second->0.port == next + 1
            &&& next == 65535 ==> second->0.port == 1024
        }),
{
}

/// Tunnels can be had where all the keys can be read and all the peers have
/// addresses of one family.
pub proof fn law_channel(config: WireGuardConfig, resolved: Seq<IpAddress>)
    ensures
        channel_fault(config, resolved) is None <==> {
            &&& key_of("private_key"@, config.private_key@) is Ok
            &&& forall|i: int|
                0 <= i < config.peers@.len() ==> {
                    let peer = #[trigger] config.peers@[i];
                    &&& key_of("peer public_key"@, peer.public_key@) is Ok
                    &&& peer.pre_shared_key matches Some(text) ==> key_of(
                        "peer pre_shared_key"@,
                        text@,
                    ) is Ok
                }
            &&& forall|i: int, j: int|
                0 <= i < resolved.len() && 0 <= j < resolved.len() ==> (#[trigger] resolved[i]
                    is V6) == (#[trigger] resolved[j] is V6)
        },
{
    lemma_keys_accepted(config.peers@);
}

proof fn lemma_keys_accepted(peers: Seq<WireGuardPeerConfig>)
    ensures
        keys_fault(peers) is None <==> forall|i: int|
            0 <= i < peers.len() ==> {
                let peer = #[trigger] peers[i];
                &&& key_of("peer public_key"@, peer.public_key@) is Ok
                &&& peer.pre_shared_key matches Some(text) ==> key_of(
                    "peer pre_shared_key"@,
                    text@,
                ) is Ok
            },
    decreases peers.len(),
{
    if peers.len() > 0 {
        let rest = peers.skip(1);
        lemma_keys_accepted(rest);
        if keys_fault(peers) is None {
            assert forall|i: int| 0 <= i < peers.len() implies {
                let peer = #[trigger] peers[i];
                &&& key_of("peer public_key"@, peer.public_key@) is Ok
                &&& peer.pre_shared_key matches Some(text) ==> key_of(
                    "peer pre_shared_key"@,
                    text@,
                ) is Ok
            } by {
                if i > 0 {
                    assert(rest[i - 1] == peers[i]);
                }
            }
        }
        if forall|i: int|
            0 <= i < peers.len() ==> {
                let peer = #[trigger] peers[i];
                &&& key_of("peer public_key"@, peer.public_key@) is Ok
                &&& peer.pre_shared_key matches Some(text) ==> key_of(
                    "peer pre_shared_key"@,
                    text@,
                ) is Ok
            } {
            let first = peers[0];
            assert(key_of("peer public_key"@, first.public_key@) is Ok);
            assert forall|i: int| 0 <= i < rest.len() implies {
                let peer = #[trigger] rest[i];
                &&& key_of("peer public_key"@, peer.public_key@) is Ok
                &&& peer.pre_shared_key matches Some(text) ==> key_of(
                    "peer pre_shared_key"@,
                    text@,
                ) is Ok
            } by {
                assert(rest[i] == peers[i + 1]);
            }
        }
    }
}

/// A packet for the network is sent with the reserved bytes in it, one for the
/// tunnel is delivered as it is, and without either the tunnel is left alone.
pub proof fn law_carried_out(packet: Seq<u8>, reserved: Seq<u8>)
    requires
        reserved.len() == 3,
        packet.len() >= 4,
    ensures
        carried_out(OutputModel::ToNetwork(packet), reserved) matches OutputModel::ToNetwork(sent)
            && sent.len() == packet.len() && sent[0] == packet[0] && sent.subrange(1, 4) == reserved
            && sent.skip(4) == packet.skip(4),
        carried_out(OutputModel::ToTunnel(packet), reserved) == OutputModel::ToTunnel(packet),
        carried_out(OutputModel::Nothing, reserved) is Nothing,
{
    let sent = marked(packet, reserved);
    assert(sent.subrange(1, 4) =~= reserved);
    assert(sent.skip(4) =~= packet.skip(4));
}

/// A datagram comes from the peer with its address, the first where several have
/// it.
pub proof fn law_sender(endpoints: Seq<Endpoint>, source: EndpointModel, at: int, other: int)
    requires
        first_at(endpoints, source, at),
        0 <= other < endpoints.len(),
    ensures
        endpoints[at]@ == source,
        endpoints[other]@ == source ==> at <= other,
{
}

} // verus!
