//! The messages of SOCKS5.
use crate::octets::{array16, be16, copy_range, read_be16};
use crate::text::{from_utf8, text_from_utf8};
use crate::types::{Endpoint, EndpointModel, Host, HostModel, IpAddress, IpModel};
use vstd::prelude::*;

verus! {

pub const SOCKS_VERSION: u8 = 0x05;

/// The methods that a client offers.
#[derive(Clone, Debug, PartialEq, Eq)]
pub struct Greeting {
    pub methods: Vec<AuthMethod>,
}

/// A method of authentication.
#[derive(Clone, Copy, Debug, PartialEq, Eq, Structural)]
pub enum AuthMethod {
    NoAuthentication,
    UsernamePassword,
    NoAcceptableMethods,
    Private(u8),
}

/// What a client asks for.
#[derive(Clone, Debug, PartialEq, Eq)]
pub struct ConnectRequest {
    pub command: Command,
    pub target: Endpoint,
}

/// What a client asks the proxy to do.
#[derive(Clone, Copy, Debug, PartialEq, Eq, Structural)]
pub enum Command {
    Connect,
    Bind,
    UdpAssociate,
}

/// A message that makes no sense.
#[derive(Clone, Debug, PartialEq, Eq)]
pub struct SocksError {
    pub message: String,
}

impl SocksError {
    pub fn new(message: impl Into<String>) -> (error: SocksError)
        ensures
            call_ensures(Into::<String>::into, (message,), error.message),
    {
        SocksError { message: message.into() }
    }
}

/// The method with a number.
pub open spec fn method_of(value: u8) -> AuthMethod {
    if value == 0 {
        AuthMethod::NoAuthentication
    } else if value == 2 {
        AuthMethod::UsernamePassword
    } else if value == 0xff {
        AuthMethod::NoAcceptableMethods
    } else {
        AuthMethod::Private(value)
    }
}

/// The number of a method.
pub open spec fn number_of(method: AuthMethod) -> u8 {
    match method {
        AuthMethod::NoAuthentication => 0,
        AuthMethod::UsernamePassword => 2,
        AuthMethod::NoAcceptableMethods => 0xff,
        AuthMethod::Private(other) => other,
    }
}

impl From<u8> for AuthMethod {
    fn from(value: u8) -> (method: AuthMethod) {
        match value {
            0x00 => AuthMethod::NoAuthentication,
            0x02 => AuthMethod::UsernamePassword,
            0xff => AuthMethod::NoAcceptableMethods,
            other => AuthMethod::Private(other),
        }
    }
}

impl vstd::std_specs::convert::FromSpecImpl<u8> for AuthMethod {
    open spec fn obeys_from_spec() -> bool {
        true
    }

    open spec fn from_spec(value: u8) -> AuthMethod {
        method_of(value)
    }
}

impl From<AuthMethod> for u8 {
    fn from(value: AuthMethod) -> (number: u8) {
        match value {
            AuthMethod::NoAuthentication => 0x00,
            AuthMethod::UsernamePassword => 0x02,
            AuthMethod::NoAcceptableMethods => 0xff,
            AuthMethod::Private(other) => other,
        }
    }
}

impl vstd::std_specs::convert::FromSpecImpl<AuthMethod> for u8 {
    open spec fn obeys_from_spec() -> bool {
        true
    }

    open spec fn from_spec(value: AuthMethod) -> u8 {
        number_of(value)
    }
}

/// The command with a number; `None` where there is none.
pub open spec fn command_of(value: u8) -> Option<Command> {
    if value == 1 {
        Some(Command::Connect)
    } else if value == 2 {
        Some(Command::Bind)
    } else if value == 3 {
        Some(Command::UdpAssociate)
    } else {
        None
    }
}

impl TryFrom<u8> for Command {
    type Error = SocksError;

    fn try_from(value: u8) -> (command: Result<Command, SocksError>)
        ensures
            match command_of(value) {
                Some(known) => command == Ok::<Command, SocksError>(known),
                None => command matches Err(error) && error.message@
                    == "unsupported SOCKS5 command"@,
            },
    {
        match value {
            0x01 => Ok(Command::Connect),
            0x02 => Ok(Command::Bind),
            0x03 => Ok(Command::UdpAssociate),
            _ => Err(SocksError::new("unsupported SOCKS5 command")),
        }
    }
}

impl vstd::std_specs::convert::TryFromSpecImpl<u8> for Command {
    open spec fn obeys_try_from_spec() -> bool {
        false
    }

    open spec fn try_from_spec(value: u8) -> Result<Command, SocksError> {
        arbitrary()
    }
}

/// Why a greeting is refused; `None` where it is not.
pub open spec fn greeting_fault(input: Seq<u8>) -> Option<Seq<char>> {
    if input.len() < 2 {
        Some("SOCKS5 greeting is too short"@)
    } else if input[0] != SOCKS_VERSION {
        Some("unsupported SOCKS version"@)
    } else if input.len() != input[1] + 2 {
        Some("SOCKS5 greeting method length mismatch"@)
    } else {
        None
    }
}

pub fn parse_greeting(input: &[u8]) -> (greeting: Result<Greeting, SocksError>)
    ensures
        match greeting_fault(input@) {
            None => greeting matches Ok(found) && found.methods@ == input@.skip(2).map_values(
                |value: u8| method_of(value),
            ),
            Some(message) => greeting matches Err(error) && error.message@ == message,
        },
{
    if input.len() < 2 {
        return Err(SocksError::new("SOCKS5 greeting is too short"));
    }
    if input[0] != SOCKS_VERSION {
        return Err(SocksError::new("unsupported SOCKS version"));
    }
    let method_count: usize = input[1] as usize;
    if input.len() != method_count + 2 {
        return Err(SocksError::new("SOCKS5 greeting method length mismatch"));
    }
    let mut methods: Vec<AuthMethod> = Vec::new();
    for i in 2..input.len()
        invariant
            2 <= i <= input@.len(),
            methods@ =~= input@.subrange(2, i as int).map_values(|value: u8| method_of(value)),
    {
        methods.push(AuthMethod::from(input[i]));
    }
    assert(input@.subrange(2, input@.len() as int) =~= input@.skip(2));
    Ok(Greeting { methods })
}

pub fn encode_method_selection(method: AuthMethod) -> (bytes: [u8; 2])
    ensures
        bytes@ == seq![SOCKS_VERSION, number_of(method)],
{
    let bytes = [SOCKS_VERSION, u8::from(method)];
    assert(bytes@ =~= seq![SOCKS_VERSION, number_of(method)]);
    bytes
}

/// The host of a request and where its port stands, or why there is none.
pub open spec fn request_host(input: Seq<u8>) -> Result<(HostModel, int), Seq<char>> {
    if input[3] == 1 {
        if input.len() < 10 {
            Err("SOCKS5 IPv4 request is too short"@)
        } else {
            Ok((HostModel::Ip(IpModel::V4(input.subrange(4, 8))), 8))
        }
    } else if input[3] == 3 {
        let end = 5 + input[4];
        if input.len() < end + 2 {
            Err("SOCKS5 domain request is too short"@)
        } else {
            match from_utf8(input.subrange(5, end)) {
                Some(domain) => Ok((HostModel::Domain(domain), end)),
                None => Err("SOCKS5 domain is not UTF-8"@),
            }
        }
    } else if input[3] == 4 {
        if input.len() < 22 {
            Err("SOCKS5 IPv6 request is too short"@)
        } else {
            Ok((HostModel::Ip(IpModel::V6(input.subrange(4, 20))), 20))
        }
    } else {
        Err("unsupported SOCKS5 address type"@)
    }
}

/// What a request asks for, or why it is refused. Bytes after the port are
/// passed over.
pub open spec fn connect_request(input: Seq<u8>) -> Result<(Command, EndpointModel), Seq<char>> {
    if input.len() < 7 {
        Err("SOCKS5 request is too short"@)
    } else if input[0] != SOCKS_VERSION {
        Err("unsupported SOCKS version"@)
    } else if input[2] != 0 {
        Err("SOCKS5 reserved byte must be zero"@)
    } else {
        match command_of(input[1]) {
            None => Err("unsupported SOCKS5 command"@),
            Some(command) => match request_host(input) {
                Err(message) => Err(message),
                Ok((host, at)) => Ok(
                    (command, EndpointModel { host, port: be16(input[at], input[at + 1]) }),
                ),
            },
        }
    }
}

pub fn parse_connect_request(input: &[u8]) -> (request: Result<ConnectRequest, SocksError>)
    ensures
        match connect_request(input@) {
            Ok((command, target)) => request matches Ok(found) && found.command == command
                && found.target@ == target,
            Err(message) => request matches Err(error) && error.message@ == message,
        },
{
    if input.len() < 7 {
        return Err(SocksError::new("SOCKS5 request is too short"));
    }
    if input[0] != SOCKS_VERSION {
        return Err(SocksError::new("unsupported SOCKS version"));
    }
    if input[2] != 0 {
        return Err(SocksError::new("SOCKS5 reserved byte must be zero"));
    }
    let command = match Command::try_from(input[1]) {
        Ok(command) => command,
        Err(error) => return Err(error),
    };
    let (host, port_offset): (Host, usize) = match input[3] {
        0x01 => {
            if input.len() < 10 {
                return Err(SocksError::new("SOCKS5 IPv4 request is too short"));
            }
            let octets = [input[4], input[5], input[6], input[7]];
            assert(octets@ =~= input@.subrange(4, 8));
            (Host::Ip(IpAddress::V4(octets)), 8)
        },
        0x03 => {
            let end: usize = 5 + input[4] as usize;
            if input.len() < end + 2 {
                return Err(SocksError::new("SOCKS5 domain request is too short"));
            }
            let bytes = copy_range(input, 5, end);
            match text_from_utf8(bytes.as_slice()) {
                Ok(domain) => (Host::Domain(domain), end),
                Err(_) => return Err(SocksError::new("SOCKS5 domain is not UTF-8")),
            }
        },
        0x04 => {
            if input.len() < 22 {
                return Err(SocksError::new("SOCKS5 IPv6 request is too short"));
            }
            let octets = array16(input, 4);
            (Host::Ip(IpAddress::V6(octets)), 20)
        },
        _ => return Err(SocksError::new("unsupported SOCKS5 address type")),
    };
    let port: u16 = read_be16(input, port_offset);
    Ok(ConnectRequest { command, target: Endpoint::new(host, port) })
}

/// The number of a method leads back to the method, where `Private` is used
/// only for numbers without a name.
pub proof fn law_method_round_trip(method: AuthMethod)
    requires
        method matches AuthMethod::Private(value) ==> value != 0 && value != 2 && value != 0xff,
    ensures
        method_of(number_of(method)) == method,
{
}

/// The method with a number has that number.
pub proof fn law_number_round_trip(value: u8)
    ensures
        number_of(method_of(value)) == value,
{
}

/// The methods have the numbers zero, two and 255, and the commands one, two and
/// three.
pub proof fn law_numbers()
    ensures
        number_of(AuthMethod::NoAuthentication) == 0,
        number_of(AuthMethod::UsernamePassword) == 2,
        number_of(AuthMethod::NoAcceptableMethods) == 255,
        command_of(1) == Some(Command::Connect),
        command_of(2) == Some(Command::Bind),
        command_of(3) == Some(Command::UdpAssociate),
        forall|value: u8| value == 0 || value > 3 ==> #[trigger] command_of(value) is None,
{
}

/// A request is read where it has version five, a command, a reserved zero, a
/// host with the tags one, three and four, and a port.
pub proof fn law_request_read(input: Seq<u8>, host: HostModel, command: Command)
    requires
        host.wf(),
        crate::address::spells_host(input, 3, 1, 3, 4, host),
        input.len() >= 3 + crate::address::host_len(host) + 2,
        input[0] == 5,
        input[1] == (match command {
            Command::Connect => 1u8,
            Command::Bind => 2u8,
            Command::UdpAssociate => 3u8,
        }),
        input[2] == 0,
    ensures
        ({
            let end = 3 + crate::address::host_len(host);
            connect_request(input) == Ok::<(Command, EndpointModel), Seq<char>>(
                (
                    command,
                    EndpointModel { host, port: (input[end] * 256 + input[end + 1]) as u16 },
                ),
            )
        }),
{
    if let HostModel::Domain(name) = host {
        crate::text::lemma_utf8_round_trip(name);
        assert(input.subrange(5, 5 + input[4]) == crate::text::utf8(name));
    }
}

/// A request of another version, with another reserved byte, or with another
/// command is refused, and so is a greeting of another version or length.
pub proof fn law_refused(input: Seq<u8>)
    ensures
        input.len() < 7 || input[0] != 5 || input[2] != 0 || input[1] == 0 || input[1] > 3
            ==> connect_request(input) is Err,
        greeting_fault(input) is None <==> input.len() >= 2 && input[0] == 5 && input.len()
            == input[1] + 2,
{
}

/// A request that ends within its host or its port is refused, and so is one
/// whose host has another tag.
pub proof fn law_request_short(input: Seq<u8>)
    requires
        input.len() >= 7,
    ensures
        input[3] == 1 && input.len() < 10 ==> connect_request(input) is Err,
        input[3] == 4 && input.len() < 22 ==> connect_request(input) is Err,
        input[3] == 3 && input.len() < 7 + input[4] ==> connect_request(input) is Err,
        input[3] != 1 && input[3] != 3 && input[3] != 4 ==> connect_request(input) is Err,
{
}

} // verus!
