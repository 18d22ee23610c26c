//! SOCKS5 connections, and ports where SOCKS5 and HTTP proxy requests come
//! mixed.
use crate::address::host_fits;
use crate::codec::socks5::{command_of, Command};
use crate::inbound::flow::{
    after, endpoint_view, flow_id, FlowIds, FlowModel, InboundFlow, Lifecycle,
};
use crate::inbound::http::{http_flow, HttpInboundCredentials, HttpProxyRequest};
use crate::inspect::enrich::FlowMeta;
use crate::octets::copy_range;
use crate::outbound::socks5::{
    decode_datagram, encode_datagram, scan_datagram, udp_header, udp_header_error, SocksDatagram,
};
use crate::text::{join, same_text};
use crate::types::{
    Endpoint, EndpointModel, Host, HostModel, IoError, IoErrorKind, IpAddress, Network,
    ProtocolHint, ServiceError, StreamError, StreamErrorKind,
};
use vstd::prelude::*;

verus! {

/// A name and a password that clients have to give.
#[derive(Clone, Debug, PartialEq, Eq)]
pub struct Socks5InboundCredentials {
    pub username: String,
    pub password: String,
}

/// A name and a password that clients of either protocol have to give.
#[derive(Clone, Debug, PartialEq, Eq)]
pub struct MixedInboundCredentials {
    pub username: String,
    pub password: String,
}

impl Socks5InboundCredentials {
    /// Whether these are a name and a password.
    pub open spec fn are(self, username: Seq<char>, password: Seq<char>) -> bool {
        self.username@ == username && self.password@ == password
    }

    /// Whether a client gave this name and this password.
    pub fn accepts(&self, username: &str, password: &str) -> (yes: bool)
        ensures
            yes == (username@ == self.username@ && password@ == self.password@),
            yes == self.are(username@, password@),
    {
        same_text(username, self.username.as_str()) && same_text(password, self.password.as_str())
    }
}

/// A service that accepts SOCKS5 connections.
pub struct Socks5Inbound {
    pub id: u64,
    pub listen: Endpoint,
    pub credentials: Option<Socks5InboundCredentials>,
    pub flow_ids: FlowIds,
    pub lifecycle: Lifecycle,
}

impl Socks5Inbound {
    pub fn new(id: u64, listen: Endpoint) -> (inbound: Socks5Inbound)
        ensures
            inbound.id == id,
            inbound.listen == listen,
            inbound.credentials is None,
            inbound.flow_ids.next == 1,
            !inbound.lifecycle.started,
            inbound.lifecycle.local_endpoint is None,
    {
        Socks5Inbound {
            id,
            listen,
            credentials: None,
            flow_ids: FlowIds::new(),
            lifecycle: Lifecycle::new(),
        }
    }

    pub fn with_credentials(self, credentials: Socks5InboundCredentials) -> (inbound: Socks5Inbound)
        ensures
            inbound == (Socks5Inbound { credentials: Some(credentials), ..self }),
    {
        Socks5Inbound {
            id: self.id,
            listen: self.listen,
            credentials: Some(credentials),
            flow_ids: self.flow_ids,
            lifecycle: self.lifecycle,
        }
    }

    /// Where the service listens, once it does.
    pub fn local_endpoint(&self) -> (local: Option<Endpoint>)
        ensures
            endpoint_view(local) == endpoint_view(self.lifecycle.local_endpoint),
    {
        self.lifecycle.local_endpoint()
    }

    /// Starts; the service is to listen where it was told to.
    pub fn start(&mut self) -> (done: Result<(), ServiceError>)
        ensures
            *final(self) == (Socks5Inbound { lifecycle: final(self).lifecycle, ..*old(self) }),
            final(self).lifecycle.started,
            final(self).lifecycle.local_endpoint == old(self).lifecycle.local_endpoint,
            match done {
                Ok(()) => !old(self).lifecycle.started,
                Err(error) => old(self).lifecycle.started && error.message@
                    == "socks5 inbound already started"@,
            },
    {
        self.lifecycle.start("socks5 inbound already started")
    }

    /// The flow to a destination that a peer asked for.
    pub fn flow_meta(&mut self, source: Endpoint, destination: Endpoint, network: Network) -> (flow:
        InboundFlow)
        ensures
            *final(self) == (Socks5Inbound { flow_ids: final(self).flow_ids, ..*old(self) }),
            final(self).flow_ids.next == after(old(self).flow_ids.next),
            flow@ == socks5_flow(
                flow_id(old(self).flow_ids.next),
                old(self).id,
                source@,
                destination@,
                network,
            ),
    {
        let id: u64 = self.flow_ids.take();
        new_flow(id, self.id, source, destination, network)
    }
}

/// The flow with a number to a destination that a peer asked for.
pub open spec fn socks5_flow(
    id: u64,
    inbound: u64,
    source: EndpointModel,
    destination: EndpointModel,
    network: Network,
) -> FlowModel {
    FlowModel {
        id,
        inbound,
        interface: None,
        network,
        source,
        destination,
        domain: Some(destination.host),
        protocol_hint: Some(ProtocolHint::Socks5),
    }
}

fn new_flow(
    id: u64,
    inbound: u64,
    source: Endpoint,
    destination: Endpoint,
    network: Network,
) -> (flow: InboundFlow)
    ensures
        flow@ == socks5_flow(id, inbound, source@, destination@, network),
{
    let domain = Some(destination.host.duplicate());
    InboundFlow {
        id,
        inbound,
        interface: None,
        meta: FlowMeta {
            network,
            source,
            destination,
            domain,
            protocol_hint: Some(ProtocolHint::Socks5),
        },
    }
}

/// What is done for a command.
pub enum CommandAction {
    /// The client is told of success, and the stream becomes a flow.
    Connect,
    /// A socket is bound here for the client's datagrams.
    Associate(Endpoint),
    /// The client is told that the command is not supported.
    Refuse(ServiceError),
}

/// The same over plain values.
pub enum CommandModel {
    Connect,
    Associate(EndpointModel),
    Refuse,
}

impl CommandAction {
    pub open spec fn view(&self) -> CommandModel {
        match *self {
            CommandAction::Connect => CommandModel::Connect,
            CommandAction::Associate(bind) => CommandModel::Associate(bind@),
            CommandAction::Refuse(_) => CommandModel::Refuse,
        }
    }
}

/// What is done for the command with a number.
pub open spec fn action_for(number: u8, target: EndpointModel, peer: EndpointModel) -> Option<
    CommandModel,
> {
    match command_of(number) {
        None => None,
        Some(Command::Connect) => Some(CommandModel::Connect),
        Some(Command::Bind) => Some(CommandModel::Refuse),
        Some(Command::UdpAssociate) => Some(CommandModel::Associate(relay_bind(target, peer))),
    }
}

/// What is done for the command of a peer.
pub fn on_command(command: Command, target: &Endpoint, peer: &Endpoint) -> (action: CommandAction)
    ensures
        match command {
            Command::Connect => action is Connect,
            Command::UdpAssociate => action matches CommandAction::Associate(bind) && bind@
                == relay_bind(target@, peer@),
            Command::Bind => action matches CommandAction::Refuse(error) && error.message@
                == "SOCKS5 BIND is not supported"@,
        },
        forall|number: u8|
            #[trigger] command_of(number) == Some(command) ==> action_for(number, target@, peer@)
                == Some(action@),
{
    match command {
        Command::Connect => CommandAction::Connect,
        Command::UdpAssociate => CommandAction::Associate(udp_relay_bind_endpoint(target, peer)),
        Command::Bind => CommandAction::Refuse(ServiceError::new("SOCKS5 BIND is not supported")),
    }
}

/// Whether a host is the address that stands for none.
pub open spec fn is_unspecified(host: HostModel) -> bool {
    host matches HostModel::Ip(ip) && forall|i: int|
        0 <= i < ip.octets().len() ==> ip.octets()[i] == 0
}

/// Where a socket for a client's datagrams is bound: at the address that the
/// client named, or else at the client's own.
pub open spec fn relay_bind(target: EndpointModel, peer: EndpointModel) -> EndpointModel {
    EndpointModel {
        host: if target.host is Ip && !is_unspecified(target.host) {
            target.host
        } else {
            peer.host
        },
        port: 0,
    }
}

pub fn udp_relay_bind_endpoint(association_target: &Endpoint, peer: &Endpoint) -> (bind: Endpoint)
    ensures
        bind@ == relay_bind(association_target@, peer@),
{
    let host = match &association_target.host {
        Host::Ip(ip) => {
            if ip.is_unspecified() {
                peer.host.duplicate()
            } else {
                association_target.host.duplicate()
            }
        },
        Host::Domain(_) => peer.host.duplicate(),
    };
    Endpoint::new(host, 0)
}

/// The address that a client is told to send its datagrams to; `local` is where
/// the socket says that it is bound.
pub fn relay_address(local: &Option<Endpoint>) -> (address: Result<(IpAddress, u16), ServiceError>)
    ensures
        match *local {
            None => address matches Err(error) && error.message@
                == "UDP relay socket did not report local endpoint"@,
            Some(endpoint) => match endpoint.host {
                Host::Ip(ip) => address == Ok::<(IpAddress, u16), ServiceError>((ip, endpoint.port)),
                Host::Domain(domain) => address matches Err(error) && error.message@
                    == "cannot use domain endpoint "@ + domain@
                    + " as SOCKS reply bind address"@,
            },
        },
{
    match local {
        None => Err(ServiceError::new("UDP relay socket did not report local endpoint")),
        Some(endpoint) => match &endpoint.host {
            Host::Ip(ip) => Ok((*ip, endpoint.port)),
            Host::Domain(domain) => {
                let head = join("cannot use domain endpoint ", domain.as_str());
                Err(ServiceError { message: join(head.as_str(), " as SOCKS reply bind address") })
            },
        },
    }
}

/// The datagrams of a client. The client is where its last datagram came from.
pub struct Socks5UdpRelaySocket {
    pub expected_client_host: Host,
    pub client_endpoint: Option<Endpoint>,
    pub closed: bool,
}

/// What comes of a datagram from outside.
pub enum RelayStep {
    /// It is passed over, and the next is read.
    Skip,
    /// The payload, and where the client sends it.
    Packet(Vec<u8>, Endpoint),
    Failed(IoError),
}

/// The same over plain values.
pub enum RelayModel {
    Skip,
    Packet(Seq<u8>, EndpointModel),
    Failed,
}

impl RelayStep {
    pub open spec fn view(&self) -> RelayModel {
        match *self {
            RelayStep::Skip => RelayModel::Skip,
            RelayStep::Packet(payload, target) => RelayModel::Packet(payload@, target@),
            RelayStep::Failed(_) => RelayModel::Failed,
        }
    }
}

/// What comes of a datagram from outside, where one of a host is expected.
pub open spec fn relayed(
    expected: HostModel,
    client: EndpointModel,
    packet: Seq<u8>,
    room: nat,
) -> RelayModel {
    if client.host != expected {
        RelayModel::Skip
    } else {
        match scan_datagram(packet) {
            SocksDatagram::Whole(target, payload) => if payload.len() > room {
                RelayModel::Failed
            } else {
                RelayModel::Packet(payload, target)
            },
            _ => RelayModel::Skip,
        }
    }
}

/// The association is closed.
pub open spec fn association_closed(error: IoError) -> bool {
    error.says(IoErrorKind::Closed, "SOCKS5 UDP association is closed"@)
}

/// What goes to the client, and where the client is.
pub open spec fn sent_view(packet: Result<(Vec<u8>, Endpoint), IoError>) -> Option<
    (Seq<u8>, EndpointModel),
> {
    match packet {
        Ok((bytes, client)) => Some((bytes@, client@)),
        Err(_) => None,
    }
}

/// The datagram that goes to the client for one that came from a sender, where
/// there is one.
pub open spec fn to_client(
    closed: bool,
    client: Option<EndpointModel>,
    sender: EndpointModel,
    payload: Seq<u8>,
) -> Option<(Seq<u8>, EndpointModel)> {
    match client {
        Some(client) => if !closed && host_fits(sender.host) {
            Some((udp_header(sender) + payload, client))
        } else {
            None
        },
        None => None,
    }
}

impl Socks5UdpRelaySocket {
    pub fn new(expected_client_host: Host) -> (socket: Socks5UdpRelaySocket)
        ensures
            socket.expected_client_host == expected_client_host,
            socket.client_endpoint is None,
            !socket.closed,
    {
        Socks5UdpRelaySocket { expected_client_host, client_endpoint: None, closed: false }
    }

    /// The client closed its connection.
    pub fn close(&mut self)
        ensures
            *final(self) == (Socks5UdpRelaySocket { closed: true, ..*old(self) }),
    {
        self.closed = true;
    }

    /// Whether datagrams may still be read.
    pub fn check_open(&self) -> (done: Result<(), IoError>)
        ensures
            match done {
                Ok(()) => !self.closed,
                Err(error) => self.closed && association_closed(error),
            },
    {
        if self.closed {
            return Err(IoError::new(IoErrorKind::Closed, "SOCKS5 UDP association is closed"));
        }
        Ok(())
    }

    /// A datagram came from outside; there are `room` bytes for its payload.
    /// Those of other hosts, without a header, or in parts are passed over.
    pub fn received(&mut self, packet: &[u8], client: Endpoint, room: usize) -> (step: RelayStep)
        ensures
            final(self).expected_client_host == old(self).expected_client_host,
            final(self).closed == old(self).closed,
            if client@.host != old(self).expected_client_host@ {
                step is Skip && final(self).client_endpoint == old(self).client_endpoint
            } else {
                match scan_datagram(packet@) {
                    SocksDatagram::Whole(target, payload) => if payload.len() > room {
                        &&& step matches RelayStep::Failed(error) && error.says(
                            IoErrorKind::InvalidInput,
                            "SOCKS5 UDP payload exceeds relay buffer"@,
                        )
                        &&& final(self).client_endpoint == old(self).client_endpoint
                    } else {
                        &&& step matches RelayStep::Packet(bytes, endpoint) && bytes@ == payload
                            && endpoint@ == target
                        &&& final(self).client_endpoint == Some(client)
                    },
                    _ => step is Skip && final(self).client_endpoint == old(self).client_endpoint,
                }
            },
            step@ == relayed(old(self).expected_client_host@, client@, packet@, room as nat),
    {
        if !client.host.same(&self.expected_client_host) {
            return RelayStep::Skip;
        }
        match decode_datagram(packet, room) {
            Ok((payload, target)) => {
                self.client_endpoint = Some(client);
                RelayStep::Packet(payload, target)
            },
            Err(error) => match error.kind {
                IoErrorKind::InvalidInput => RelayStep::Failed(error),
                _ => RelayStep::Skip,
            },
        }
    }

    /// The datagram that goes to the client, and where the client is.
    pub fn poll_send_to(&self, payload: &[u8], target: &Endpoint) -> (packet: Result<
        (Vec<u8>, Endpoint),
        IoError,
    >)
        ensures
            if self.closed {
                packet matches Err(error) && association_closed(error)
            } else {
                match self.client_endpoint {
                    None => packet matches Err(error) && error.says(
                        IoErrorKind::Closed,
                        "SOCKS5 UDP client endpoint is not known yet"@,
                    ),
                    Some(client) => if host_fits(target@.host) {
                        packet matches Ok(found) && found.0@ == udp_header(target@) + payload@
                            && found.1@ == client@
                    } else {
                        packet matches Err(error) && error.says(
                            IoErrorKind::Other,
                            udp_header_error(target@.host),
                        )
                    },
                }
            },
            sent_view(packet) == to_client(
                self.closed,
                endpoint_view(self.client_endpoint),
                target@,
                payload@,
            ),
    {
        match self.check_open() {
            Ok(()) => {},
            Err(error) => return Err(error),
        }
        match &self.client_endpoint {
            None => Err(
                IoError::new(IoErrorKind::Closed, "SOCKS5 UDP client endpoint is not known yet"),
            ),
            Some(client) => match encode_datagram(target, payload) {
                Ok(packet) => Ok((packet, client.duplicate())),
                Err(error) => Err(error),
            },
        }
    }
}

/// A service that accepts both protocols on one port.
pub struct MixedInbound {
    pub id: u64,
    pub listen: Endpoint,
    pub credentials: Option<MixedInboundCredentials>,
    pub flow_ids: FlowIds,
    pub lifecycle: Lifecycle,
}

/// What a connection speaks, with the credentials that its client has to give.
pub enum MixedProtocol {
    Socks5(Option<Socks5InboundCredentials>),
    Http(Option<HttpInboundCredentials>),
}

/// What a connection on a mixed port speaks.
#[derive(Clone, Copy, PartialEq, Eq)]
pub enum Spoken {
    Socks5,
    Http,
}

/// Which protocol was made out.
pub open spec fn protocol_view(protocol: Result<MixedProtocol, ServiceError>) -> Option<Spoken> {
    match protocol {
        Ok(MixedProtocol::Socks5(_)) => Some(Spoken::Socks5),
        Ok(MixedProtocol::Http(_)) => Some(Spoken::Http),
        Err(_) => None,
    }
}

/// The protocol of a connection by its first byte.
pub open spec fn spoken(first: Option<u8>) -> Option<Spoken> {
    match first {
        None => None,
        Some(byte) => if byte == 5 {
            Some(Spoken::Socks5)
        } else {
            Some(Spoken::Http)
        },
    }
}

impl MixedInbound {
    pub fn new(id: u64, listen: Endpoint) -> (inbound: MixedInbound)
        ensures
            inbound.id == id,
            inbound.listen == listen,
            inbound.credentials is None,
            inbound.flow_ids.next == 1,
            !inbound.lifecycle.started,
            inbound.lifecycle.local_endpoint is None,
    {
        MixedInbound {
            id,
            listen,
            credentials: None,
            flow_ids: FlowIds::new(),
            lifecycle: Lifecycle::new(),
        }
    }

    pub fn with_credentials(self, credentials: MixedInboundCredentials) -> (inbound: MixedInbound)
        ensures
            inbound == (MixedInbound { credentials: Some(credentials), ..self }),
    {
        MixedInbound {
            id: self.id,
            listen: self.listen,
            credentials: Some(credentials),
            flow_ids: self.flow_ids,
            lifecycle: self.lifecycle,
        }
    }

    /// Where the service listens, once it does.
    pub fn local_endpoint(&self) -> (local: Option<Endpoint>)
        ensures
            endpoint_view(local) == endpoint_view(self.lifecycle.local_endpoint),
    {
        self.lifecycle.local_endpoint()
    }

    /// Starts; the service is to listen where it was told to.
    pub fn start(&mut self) -> (done: Result<(), ServiceError>)
        ensures
            *final(self) == (MixedInbound { lifecycle: final(self).lifecycle, ..*old(self) }),
            final(self).lifecycle.started,
            final(self).lifecycle.local_endpoint == old(self).lifecycle.local_endpoint,
            match done {
                Ok(()) => !old(self).lifecycle.started,
                Err(error) => old(self).lifecycle.started && error.message@
                    == "mixed inbound already started"@,
            },
    {
        self.lifecycle.start("mixed inbound already started")
    }

    /// The flow to a destination that a SOCKS5 client asked for. Flows of both
    /// protocols take their numbers from one counter.
    pub fn socks5_flow(
        &mut self,
        source: Endpoint,
        destination: Endpoint,
        network: Network,
    ) -> (flow: InboundFlow)
        ensures
            *final(self) == (MixedInbound { flow_ids: final(self).flow_ids, ..*old(self) }),
            final(self).flow_ids.next == after(old(self).flow_ids.next),
            flow@ == socks5_flow(
                flow_id(old(self).flow_ids.next),
                old(self).id,
                source@,
                destination@,
                network,
            ),
    {
        let id: u64 = self.flow_ids.take();
        new_flow(id, self.id, source, destination, network)
    }

    /// The flow of an HTTP request that was accepted from a peer; `literal` is
    /// the address that its host writes.
    pub fn http_flow(
        &mut self,
        peer: Endpoint,
        request: &HttpProxyRequest,
        literal: Option<IpAddress>,
    ) -> (flow: InboundFlow)
        ensures
            *final(self) == (MixedInbound { flow_ids: final(self).flow_ids, ..*old(self) }),
            final(self).flow_ids.next == after(old(self).flow_ids.next),
            flow@ == http_flow(
                flow_id(old(self).flow_ids.next),
                old(self).id,
                peer@,
                request.target_of(literal),
            ),
    {
        let id: u64 = self.flow_ids.take();
        request.flow(id, self.id, peer, literal)
    }

    /// What a connection speaks, by its first byte; without one it was closed.
    pub fn protocol_of(&self, first: Option<u8>) -> (protocol: Result<MixedProtocol, ServiceError>)
        ensures
            match first {
                None => protocol matches Err(error) && error.message@
                    == "mixed inbound connection closed before protocol byte"@,
                Some(5) => protocol matches Ok(MixedProtocol::Socks5(given)) && match (
                    self.credentials,
                    given,
                ) {
                    (Some(wanted), Some(given)) => given.username@ == wanted.username@
                        && given.password@ == wanted.password@,
                    (None, None) => true,
                    _ => false,
                },
                Some(_) => protocol matches Ok(MixedProtocol::Http(given)) && match (
                    self.credentials,
                    given,
                ) {
                    (Some(wanted), Some(given)) => given.username@ == wanted.username@
                        && given.password@ == wanted.password@,
                    (None, None) => true,
                    _ => false,
                },
            },
            protocol_view(protocol) == spoken(first),
    {
        let first: u8 = match first {
            None => return Err(
                ServiceError::new("mixed inbound connection closed before protocol byte"),
            ),
            Some(first) => first,
        };
        if first == 5 {
            Ok(
                MixedProtocol::Socks5(
                    match &self.credentials {
                        Some(wanted) => Some(
                            Socks5InboundCredentials {
                                username: wanted.username.as_str().to_owned(),
                                password: wanted.password.as_str().to_owned(),
                            },
                        ),
                        None => None,
                    },
                ),
            )
        } else {
            Ok(
                MixedProtocol::Http(
                    match &self.credentials {
                        Some(wanted) => Some(
                            HttpInboundCredentials {
                                username: wanted.username.as_str().to_owned(),
                                password: wanted.password.as_str().to_owned(),
                            },
                        ),
                        None => None,
                    },
                ),
            )
        }
    }
}

/// A stream that begins with bytes that were read ahead. While some are left,
/// every read is answered from them.
pub struct PrefixedByteStream {
    pub prefix: Vec<u8>,
    pub offset: usize,
}

impl PrefixedByteStream {
    pub open spec fn wf(self) -> bool {
        self.offset <= self.prefix@.len()
    }

    /// What was read ahead and not yet given.
    pub open spec fn waiting(self) -> Seq<u8> {
        self.prefix@.skip(self.offset as int)
    }

    pub fn new(prefix: Vec<u8>) -> (stream: PrefixedByteStream)
        ensures
            stream.wf(),
            stream.waiting() == prefix@,
    {
        let stream = PrefixedByteStream { prefix, offset: 0 };
        assert(stream.waiting() =~= prefix@);
        stream
    }

    /// What a read into `room` bytes gives; `None` where the stream below is to
    /// be read.
    pub fn poll_read(&mut self, room: usize) -> (bytes: Option<Vec<u8>>)
        requires
            old(self).wf(),
        ensures
            final(self).wf(),
            ({
                let waiting = old(self).waiting();
                if waiting.len() > 0 {
                    let count = if room < waiting.len() {
                        room as int
                    } else {
                        waiting.len() as int
                    };
                    &&& bytes matches Some(bytes) && bytes@ == waiting.take(count)
                    &&& final(self).waiting() == waiting.skip(count)
                } else {
                    bytes is None && final(self).waiting() == waiting
                }
            }),
    {
        let left: usize = self.prefix.len() - self.offset;
        if left == 0 {
            return None;
        }
        let count: usize = if room < left {
            room
        } else {
            left
        };
        let bytes = copy_range(self.prefix.as_slice(), self.offset, self.offset + count);
        assert(bytes@ =~= self.waiting().take(count as int));
        let ghost waiting = self.waiting();
        self.offset = self.offset + count;
        assert(self.waiting() =~= waiting.skip(count as int));
        Some(bytes)
    }
}

/// What a failure is in the terms of the standard library.
pub open spec fn stream_kind(kind: IoErrorKind) -> StreamErrorKind {
    match kind {
        IoErrorKind::Closed => StreamErrorKind::UnexpectedEof,
        IoErrorKind::Interrupted => StreamErrorKind::Interrupted,
        IoErrorKind::InvalidInput => StreamErrorKind::InvalidInput,
        IoErrorKind::Unsupported => StreamErrorKind::Unsupported,
        IoErrorKind::Other => StreamErrorKind::Other,
    }
}

pub fn io_error_to_std(error: IoError) -> (mapped: StreamError)
    ensures
        mapped.says(stream_kind(error.kind), error.message@),
{
    let kind = match error.kind {
        IoErrorKind::Closed => StreamErrorKind::UnexpectedEof,
        IoErrorKind::Interrupted => StreamErrorKind::Interrupted,
        IoErrorKind::InvalidInput => StreamErrorKind::InvalidInput,
        IoErrorKind::Unsupported => StreamErrorKind::Unsupported,
        IoErrorKind::Other => StreamErrorKind::Other,
    };
    StreamError { kind, message: error.message }
}

/// A failure that is told to the standard library's streams and read back keeps
/// its kind.
pub proof fn law_kinds_kept(kind: IoErrorKind)
    ensures
        crate::outbound::socks5::io_kind(stream_kind(kind)) == kind,
{
}

/// A flow goes from the client to what it asked for, names the host that it
/// asked for as its domain, and is known to be SOCKS5.
pub proof fn law_flow(
    id: u64,
    inbound: u64,
    source: EndpointModel,
    destination: EndpointModel,
    network: Network,
)
    ensures
        ({
            let flow = socks5_flow(id, inbound, source, destination, network);
            &&& flow.id == id && flow.inbound == inbound && flow.interface is None
            &&& flow.network == network
            &&& flow.source == source && flow.destination == destination
            &&& flow.domain == Some(destination.host)
            &&& flow.protocol_hint == Some(ProtocolHint::Socks5)
        }),
{
}

/// A socket for a client's datagrams is bound, at any port, to the address that
/// the client named; where that is none in particular, or a name, to the
/// client's own host.
pub proof fn law_relay_bind(target: EndpointModel, peer: EndpointModel)
    ensures
        relay_bind(target, peer).port == 0,
        target.host is Domain ==> relay_bind(target, peer).host == peer.host,
        target.host matches HostModel::Ip(ip) ==> {
            let any = forall|i: int|
                0 <= i < ip.octets().len() ==> #[trigger] ip.octets()[i] == 0;
            &&& any ==> relay_bind(target, peer).host == peer.host
            &&& !any ==> relay_bind(target, peer).host == target.host
        },
{
}

/// A datagram that the client wraps for a target goes to that target with its
/// payload, where there is room for it. Those of any other host are passed over.
pub proof fn law_relayed(
    expected: HostModel,
    client: EndpointModel,
    target: EndpointModel,
    payload: Seq<u8>,
    room: nat,
)
    requires
        host_fits(target.host),
        target.host.wf(),
    ensures
        ({
            let step = relayed(expected, client, udp_header(target) + payload, room);
            &&& client.host != expected ==> step is Skip
            &&& client.host == expected && payload.len() <= room ==> step == RelayModel::Packet(
                payload,
                target,
            )
            &&& client.host == expected && payload.len() > room ==> step is Failed
        }),
{
    crate::outbound::socks5::law_datagram_round_trip(target, payload);
}

/// The command one opens a stream, the command three a socket for datagrams, and
/// the command two is refused; there are no others.
pub proof fn law_commands(target: EndpointModel, peer: EndpointModel, number: u8)
    ensures
        action_for(1, target, peer) == Some(CommandModel::Connect),
        action_for(2, target, peer) == Some(CommandModel::Refuse),
        action_for(3, target, peer) matches Some(CommandModel::Associate(bind)) && bind.port == 0,
        number == 0 || number > 3 ==> action_for(number, target, peer) is None,
{
}

/// A client is let in by its name and its password together. A connection that
/// begins with the byte five speaks SOCKS5, and any other speaks HTTP.
pub proof fn law_let_in(
    wanted: Socks5InboundCredentials,
    username: Seq<char>,
    password: Seq<char>,
    byte: u8,
)
    ensures
        wanted.are(wanted.username@, wanted.password@),
        username != wanted.username@ ==> !wanted.are(username, password),
        password != wanted.password@ ==> !wanted.are(username, password),
        spoken(Some(5)) == Some(Spoken::Socks5),
        byte != 5 ==> spoken(Some(byte)) == Some(Spoken::Http),
        spoken(None) is None,
{
}

/// What comes back for the client reaches it, once it was heard of and while its
/// association is open, as a datagram that says who sent it.
pub proof fn law_sent_back(
    client: EndpointModel,
    sender: EndpointModel,
    payload: Seq<u8>,
)
    requires
        host_fits(sender.host),
        sender.host.wf(),
    ensures
        to_client(false, Some(client), sender, payload) matches Some((bytes, reached)) && reached
            == client && scan_datagram(bytes) == SocksDatagram::Whole(sender, payload),
        to_client(true, Some(client), sender, payload) is None,
        to_client(false, None, sender, payload) is None,
{
    crate::outbound::socks5::law_datagram_round_trip(sender, payload);
}

} // verus!
