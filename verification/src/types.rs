//! Addresses, endpoints and errors shared by every module.
use crate::octets::same_bytes;
use crate::text::same_text;
use vstd::prelude::*;

verus! {

/// A literal internet address, in network byte order.
#[derive(Clone, Copy, Debug, PartialEq, Eq, Hash)]
pub enum IpAddress {
    V4([u8; 4]),
    V6([u8; 16]),
}

/// What an [`IpAddress`] holds.
pub enum IpModel {
    V4(Seq<u8>),
    V6(Seq<u8>),
}

impl IpModel {
    /// The octets, whichever the family.
    pub open spec fn octets(self) -> Seq<u8> {
        match self {
            IpModel::V4(octets) => octets,
            IpModel::V6(octets) => octets,
        }
    }

    /// Whether the number of octets fits the family.
    pub open spec fn wf(self) -> bool {
        match self {
            IpModel::V4(octets) => octets.len() == 4,
            IpModel::V6(octets) => octets.len() == 16,
        }
    }
}

impl View for IpAddress {
    type V = IpModel;

    open spec fn view(&self) -> IpModel {
        match *self {
            IpAddress::V4(octets) => IpModel::V4(octets@),
            IpAddress::V6(octets) => IpModel::V6(octets@),
        }
    }
}

impl IpAddress {
    /// Whether both hold the same address.
    pub fn same(&self, other: &IpAddress) -> (same: bool)
        ensures
            same == (self@ == other@),
    {
        match (self, other) {
            (IpAddress::V4(left), IpAddress::V4(right)) => same_bytes(left, right),
            (IpAddress::V6(left), IpAddress::V6(right)) => same_bytes(left, right),
            _ => false,
        }
    }

    /// Whether every octet is zero.
    pub fn is_unspecified(&self) -> (zero: bool)
        ensures
            zero == (forall|i: int| 0 <= i < self@.octets().len() ==> self@.octets()[i] == 0),
    {
        let bytes: &[u8] = match self {
            IpAddress::V4(octets) => octets,
            IpAddress::V6(octets) => octets,
        };
        for i in 0..bytes.len()
            invariant
                bytes@ == self@.octets(),
                forall|j: int| 0 <= j < i ==> bytes@[j] == 0,
        {
            if bytes[i] != 0 {
                return false;
            }
        }
        true
    }
}

/// A block of addresses that share their first `prefix_len` bits.
#[derive(Clone, Copy, Debug, PartialEq, Eq, Hash)]
pub struct IpCidr {
    pub address: IpAddress,
    pub prefix_len: u8,
}

impl IpCidr {
    /// Whether the prefix fits the address family.
    pub open spec fn wf(self) -> bool {
        match self.address {
            IpAddress::V4(_) => self.prefix_len <= 32,
            IpAddress::V6(_) => self.prefix_len <= 128,
        }
    }

    /// A block, unless the prefix is longer than the address.
    pub fn new(address: IpAddress, prefix_len: u8) -> (cidr: Option<IpCidr>)
        ensures
            cidr == (if (IpCidr { address, prefix_len }).wf() {
                Some(IpCidr { address, prefix_len })
            } else {
                None
            }),
    {
        let limit: u8 = match address {
            IpAddress::V4(_) => 32,
            IpAddress::V6(_) => 128,
        };
        if prefix_len <= limit {
            Some(IpCidr { address, prefix_len })
        } else {
            None
        }
    }
}

/// A host, named or literal.
#[derive(Clone, Debug, PartialEq, Eq, Hash)]
pub enum Host {
    Ip(IpAddress),
    Domain(String),
}

/// What a [`Host`] holds.
pub enum HostModel {
    Ip(IpModel),
    Domain(Seq<char>),
}

impl HostModel {
    /// Whether a literal address has as many octets as its family asks.
    pub open spec fn wf(self) -> bool {
        self matches HostModel::Ip(ip) ==> ip.wf()
    }
}

impl View for Host {
    type V = HostModel;

    open spec fn view(&self) -> HostModel {
        match *self {
            Host::Ip(ip) => HostModel::Ip(ip@),
            Host::Domain(name) => HostModel::Domain(name@),
        }
    }
}

impl Host {
    /// A named host.
    pub fn domain(name: &str) -> (host: Host)
        ensures
            host@ == HostModel::Domain(name@),
    {
        Host::Domain(name.to_owned())
    }

    /// Whether both name the same host.
    pub fn same(&self, other: &Host) -> (same: bool)
        ensures
            same == (self@ == other@),
    {
        match (self, other) {
            (Host::Ip(left), Host::Ip(right)) => left.same(right),
            (Host::Domain(left), Host::Domain(right)) => same_text(left.as_str(), right.as_str()),
            _ => false,
        }
    }

    /// A copy.
    pub fn duplicate(&self) -> (copy: Host)
        ensures
            copy@ == self@,
    {
        match self {
            Host::Ip(ip) => Host::Ip(*ip),
            Host::Domain(name) => Host::Domain(name.as_str().to_owned()),
        }
    }
}

/// A host and a port.
#[derive(Clone, Debug, PartialEq, Eq, Hash)]
pub struct Endpoint {
    pub host: Host,
    pub port: u16,
}

/// What an [`Endpoint`] holds.
pub struct EndpointModel {
    pub host: HostModel,
    pub port: u16,
}

impl View for Endpoint {
    type V = EndpointModel;

    open spec fn view(&self) -> EndpointModel {
        EndpointModel { host: self.host@, port: self.port }
    }
}

impl Endpoint {
    pub fn new(host: Host, port: u16) -> (endpoint: Endpoint)
        ensures
            endpoint@ == (EndpointModel { host: host@, port }),
    {
        Endpoint { host, port }
    }

    /// The IPv4 loopback address.
    pub fn localhost_v4(port: u16) -> (endpoint: Endpoint)
        ensures
            endpoint@ == (EndpointModel {
                host: HostModel::Ip(IpModel::V4(seq![127u8, 0u8, 0u8, 1u8])),
                port,
            }),
    {
        let octets: [u8; 4] = [127, 0, 0, 1];
        assert(octets@ =~= seq![127u8, 0u8, 0u8, 1u8]);
        Endpoint { host: Host::Ip(IpAddress::V4(octets)), port }
    }

    /// Whether both name the same host and port.
    pub fn same(&self, other: &Endpoint) -> (same: bool)
        ensures
            same == (self@ == other@),
    {
        self.port == other.port && self.host.same(&other.host)
    }

    /// A copy.
    pub fn duplicate(&self) -> (copy: Endpoint)
        ensures
            copy@ == self@,
    {
        Endpoint { host: self.host.duplicate(), port: self.port }
    }
}

} // verus!

verus! {

/// What went wrong with a stream or a socket.
#[derive(Clone, Copy, Debug, PartialEq, Eq, Structural)]
pub enum IoErrorKind {
    Closed,
    Interrupted,
    InvalidInput,
    Unsupported,
    Other,
}

/// A failure of a stream or a socket.
#[derive(Clone, Debug, PartialEq, Eq)]
pub struct IoError {
    pub kind: IoErrorKind,
    pub message: String,
}

/// `String::from` copies a string slice.
pub assume_specification<'a>[ <String as core::convert::From<&'a str>>::from ](text: &str) -> (out:
    String)
    ensures
        out@ == text@,
;

impl IoError {
    pub fn new(kind: IoErrorKind, message: impl Into<String>) -> (error: IoError)
        ensures
            error.kind == kind,
            call_ensures(Into::<String>::into, (message,), error.message),
    {
        IoError { kind, message: message.into() }
    }

    /// Whether this error is of `kind` and says `message`.
    pub open spec fn says(self, kind: IoErrorKind, message: Seq<char>) -> bool {
        self.kind == kind && self.message@ == message
    }
}

/// The kind of a failure of the standard library's streams.
#[derive(Clone, Copy, Debug, PartialEq, Eq, Structural)]
pub enum StreamErrorKind {
    BrokenPipe,
    ConnectionAborted,
    ConnectionReset,
    UnexpectedEof,
    Interrupted,
    InvalidInput,
    InvalidData,
    Unsupported,
    TimedOut,
    Other,
}

/// A failure of a stream, in the terms of the standard library.
#[derive(Clone, Debug, PartialEq, Eq)]
pub struct StreamError {
    pub kind: StreamErrorKind,
    pub message: String,
}

impl StreamError {
    pub fn new(kind: StreamErrorKind, message: impl Into<String>) -> (error: StreamError)
        ensures
            error.kind == kind,
            call_ensures(Into::<String>::into, (message,), error.message),
    {
        StreamError { kind, message: message.into() }
    }

    /// Whether this error is of `kind` and says `message`.
    pub open spec fn says(self, kind: StreamErrorKind, message: Seq<char>) -> bool {
        self.kind == kind && self.message@ == message
    }
}

/// A failure of an outbound connection.
#[derive(Clone, Debug, PartialEq, Eq)]
pub struct OutboundError {
    pub message: String,
}

impl OutboundError {
    pub fn new(message: impl Into<String>) -> (error: OutboundError)
        ensures
            call_ensures(Into::<String>::into, (message,), error.message),
    {
        OutboundError { message: message.into() }
    }
}

/// A failure of a long-running service.
#[derive(Clone, Debug, PartialEq, Eq)]
pub struct ServiceError {
    pub message: String,
}

impl ServiceError {
    pub fn new(message: impl Into<String>) -> (error: ServiceError)
        ensures
            call_ensures(Into::<String>::into, (message,), error.message),
    {
        ServiceError { message: message.into() }
    }
}

/// The transport protocol of a flow.
#[derive(Clone, Copy, Debug, PartialEq, Eq, Hash, Structural)]
pub enum Network {
    Tcp,
    Udp,
}

/// The application protocol that a flow was recognised to speak.
#[derive(Clone, Copy, Debug, PartialEq, Eq, Hash, Structural)]
pub enum ProtocolHint {
    Http,
    Tls,
    Quic,
    Dns,
    Socks5,
}

} // verus!
