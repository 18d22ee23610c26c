//! HTTP proxy requests: tunnels, and requests that are passed on.
use crate::crypto::{base64_bytes, base64_decode};
use crate::inbound::flow::{
    after, endpoint_view, flow_id, FlowIds, FlowModel, InboundFlow, Lifecycle,
};
use crate::inspect::enrich::FlowMeta;
use crate::octets::{copy_range, push_all, same_bytes};
use crate::outbound::http::{
    authority, blank_line, find_header_end, proof_line, provable, request_text,
};
use crate::text::{
    begins_with, begins_with_chars, chars_of, decimal, find, find_chars, from_utf8, is_white,
    is_word, join, lemma_decimal_round_trip, lemma_decimal_word, lemma_find_first, lemma_next_word,
    lemma_rsplit_piece, lemma_split_piece, lemma_split_whole, lemma_utf8_concat,
    lemma_utf8_nonempty, lemma_utf8_round_trip, lemma_utf8_without, lower, next_word,
    next_word_chars, occurs_at, parse_number, parse_number_chars, rsplit_once, rsplit_once_chars,
    same_chars, same_ignoring_case, same_text, split, split_chars, split_once, split_once_chars,
    string_of, sub_chars, text_from_utf8, trim, trim_chars, utf8, views,
};
use crate::types::{
    Endpoint, EndpointModel, Host, HostModel, IpAddress, IpModel, Network, ProtocolHint,
    ServiceError,
};
use vstd::prelude::*;
use vstd::slice::slice_subrange;

verus! {

/// No more than this is read in search of the end of a header.
pub const MAX_HEADER_BYTES: usize = 8192;

/// What is said of a request without the right name and password.
pub const AUTHENTICATION_REQUIRED: &'static str = "HTTP proxy authentication required";

/// The answer to a request without the right name and password.
pub const AUTHENTICATE_REPLY: &'static str = "HTTP/1.1 407 Proxy Authentication Required\r\nProxy-Authenticate: Basic realm=\"RustBox\"\r\n\r\n";

/// The answer to a request that makes no sense.
pub const BAD_REQUEST_REPLY: &'static str = "HTTP/1.1 400 Bad Request\r\n\r\n";

/// The answer to a request for a tunnel.
pub const ESTABLISHED_REPLY: &'static str = "HTTP/1.1 200 Connection Established\r\n\r\n";

/// A name and a password that clients have to give.
#[derive(Clone, Debug, PartialEq, Eq)]
pub struct HttpInboundCredentials {
    pub username: String,
    pub password: String,
}

/// What credentials hold.
pub open spec fn credentials_view(credentials: Option<HttpInboundCredentials>) -> Option<
    (Seq<char>, Seq<char>),
> {
    match credentials {
        Some(credentials) => Some((credentials.username@, credentials.password@)),
        None => None,
    }
}

/// A request to the proxy.
pub struct HttpProxyRequest {
    /// The host, as the client wrote it.
    pub host: String,
    pub port: u16,
    pub is_connect: bool,
    /// What is passed on to the target before the bytes that follow.
    pub prefix: Vec<u8>,
}

/// The same over plain values.
#[verifier::ext_equal]
pub struct RequestModel {
    pub host: Seq<char>,
    pub port: u16,
    pub is_connect: bool,
    pub prefix: Seq<u8>,
}

impl View for HttpProxyRequest {
    type V = RequestModel;

    open spec fn view(&self) -> RequestModel {
        RequestModel {
            host: self.host@,
            port: self.port,
            is_connect: self.is_connect,
            prefix: self.prefix@,
        }
    }
}

/// A port number.
pub open spec fn port_of(text: Seq<char>) -> Option<u16> {
    match parse_number(text, 0xffff) {
        Some(value) => Some(value as u16),
        None => None,
    }
}

fn read_port(text: &[char]) -> (port: Option<u16>)
    ensures
        port == port_of(text@),
{
    match parse_number_chars(text, 0xffff) {
        Some(value) => {
            assert(value <= 0xffff);
            Some(value as u16)
        },
        None => None,
    }
}

/// The host and the port of the target of a tunnel, or what is wrong with it.
pub open spec fn authority_of(text: Seq<char>) -> Result<(Seq<char>, u16), Seq<char>> {
    let parts = if text.len() > 0 && text[0] == '[' {
        split_once(text.skip(1), "]:"@)
    } else {
        rsplit_once(text, ':')
    };
    match parts {
        None => if text.len() > 0 && text[0] == '[' {
            Err("invalid bracketed IPv6 authority"@)
        } else {
            Err("HTTP CONNECT authority must include a port"@)
        },
        Some((host, port)) => match port_of(port) {
            None => Err("HTTP CONNECT port is invalid"@),
            Some(port) => Ok((host, port)),
        },
    }
}

fn parse_authority(text: &[char]) -> (target: Result<(Vec<char>, u16), ServiceError>)
    ensures
        match authority_of(text@) {
            Ok((host, port)) => target matches Ok(found) && found.0@ == host && found.1 == port,
            Err(message) => target matches Err(error) && error.message@ == message,
        },
{
    let bracket = text.len() > 0 && text[0] == '[';
    let parts = if bracket {
        let rest = slice_subrange(text, 1, text.len());
        assert(rest@ =~= text@.skip(1));
        let mark = chars_of("]:");
        split_once_chars(rest, mark.as_slice())
    } else {
        rsplit_once_chars(text, ':')
    };
    match parts {
        None => if bracket {
            Err(ServiceError::new("invalid bracketed IPv6 authority"))
        } else {
            Err(ServiceError::new("HTTP CONNECT authority must include a port"))
        },
        Some((host, port)) => match read_port(port.as_slice()) {
            None => Err(ServiceError::new("HTTP CONNECT port is invalid")),
            Some(port) => Ok((host, port)),
        },
    }
}

/// The host and the port of the target of a request, or what is wrong with it.
pub open spec fn authority_or(text: Seq<char>, default_port: u16) -> Result<
    (Seq<char>, u16),
    Seq<char>,
> {
    if text.len() > 0 && text[0] == '[' {
        let rest = text.skip(1);
        match find(rest, "]"@) {
            None => Err("invalid bracketed IPv6 authority"@),
            Some(end) => {
                let tail = rest.skip(end + 1);
                if tail.len() > 0 && tail[0] == ':' {
                    match port_of(tail.skip(1)) {
                        None => Err("HTTP proxy port is invalid"@),
                        Some(port) => Ok((rest.take(end), port)),
                    }
                } else {
                    Ok((rest.take(end), default_port))
                }
            },
        }
    } else {
        match rsplit_once(text, ':') {
            None => Ok((text, default_port)),
            Some((host, port)) => match port_of(port) {
                None => Err("HTTP proxy port is invalid"@),
                Some(port) => Ok((host, port)),
            },
        }
    }
}

fn parse_authority_with_default_port(text: &[char], default_port: u16) -> (target: Result<
    (Vec<char>, u16),
    ServiceError,
>)
    ensures
        match authority_or(text@, default_port) {
            Ok((host, port)) => target matches Ok(found) && found.0@ == host && found.1 == port,
            Err(message) => target matches Err(error) && error.message@ == message,
        },
{
    if text.len() > 0 && text[0] == '[' {
        let rest = slice_subrange(text, 1, text.len());
        assert(rest@ =~= text@.skip(1));
        let mark = chars_of("]");
        proof {
            reveal_strlit("]");
        }
        match find_chars(rest, mark.as_slice()) {
            None => Err(ServiceError::new("invalid bracketed IPv6 authority")),
            Some(end) => {
                let host = sub_chars(rest, 0, end);
                let tail = slice_subrange(rest, end + 1, rest.len());
                assert(host@ =~= rest@.take(end as int));
                assert(tail@ =~= rest@.skip(end + 1));
                if tail.len() > 0 && tail[0] == ':' {
                    let digits = slice_subrange(tail, 1, tail.len());
                    assert(digits@ =~= tail@.skip(1));
                    match read_port(digits) {
                        None => Err(ServiceError::new("HTTP proxy port is invalid")),
                        Some(port) => Ok((host, port)),
                    }
                } else {
                    Ok((host, default_port))
                }
            },
        }
    } else {
        match rsplit_once_chars(text, ':') {
            None => {
                let host = sub_chars(text, 0, text.len());
                assert(host@ =~= text@);
                Ok((host, default_port))
            },
            Some((host, port)) => match read_port(port.as_slice()) {
                None => Err(ServiceError::new("HTTP proxy port is invalid")),
                Some(port) => Ok((host, port)),
            },
        }
    }
}

/// How many characters stand before the path or the query.
pub open spec fn authority_len(text: Seq<char>) -> nat
    decreases text.len(),
{
    if text.len() == 0 || text[0] == '/' || text[0] == '?' {
        0
    } else {
        1 + authority_len(text.skip(1))
    }
}

/// What is passed on in place of the whole address: a path, never empty.
pub open spec fn origin_form(path: Seq<char>) -> Seq<char> {
    if path.len() == 0 {
        "/"@
    } else if path[0] == '?' {
        "/"@ + path
    } else {
        path
    }
}

/// The port of a scheme.
pub open spec fn scheme_port(scheme: Seq<char>) -> Option<u16> {
    if scheme == "http"@ {
        Some(80)
    } else if scheme == "https"@ {
        Some(443)
    } else {
        None
    }
}

/// The host, the port and the path of a whole address, or what is wrong with
/// it.
pub open spec fn absolute_target(value: Seq<char>) -> Result<
    (Seq<char>, u16, Seq<char>),
    Seq<char>,
> {
    match split_once(value, "://"@) {
        None => Err("HTTP proxy request target must use absolute-form"@),
        Some((scheme, rest)) => match scheme_port(scheme) {
            None => Err("HTTP proxy request scheme is unsupported"@),
            Some(default_port) => {
                let end = authority_len(rest) as int;
                if end == 0 {
                    Err("HTTP proxy request authority is empty"@)
                } else {
                    match authority_or(rest.take(end), default_port) {
                        Err(message) => Err(message),
                        Ok((host, port)) => Ok((host, port, origin_form(rest.skip(end)))),
                    }
                }
            },
        },
    }
}

fn parse_absolute_form_target(value: &[char]) -> (target: Result<
    (Vec<char>, u16, String),
    ServiceError,
>)
    ensures
        match absolute_target(value@) {
            Ok((host, port, path)) => target matches Ok(found) && found.0@ == host && found.1
                == port && found.2@ == path,
            Err(message) => target matches Err(error) && error.message@ == message,
        },
{
    let mark = chars_of("://");
    let (scheme, rest) = match split_once_chars(value, mark.as_slice()) {
        None => return Err(ServiceError::new("HTTP proxy request target must use absolute-form")),
        Some(parts) => parts,
    };
    let http = chars_of("http");
    let https = chars_of("https");
    let default_port: u16 = if same_chars(scheme.as_slice(), http.as_slice()) {
        80
    } else if same_chars(scheme.as_slice(), https.as_slice()) {
        443
    } else {
        return Err(ServiceError::new("HTTP proxy request scheme is unsupported"));
    };
    let mut end: usize = 0;
    assert(rest@.skip(0) =~= rest@);
    while end < rest.len() && rest[end] != '/' && rest[end] != '?'
        invariant
            end <= rest@.len(),
            authority_len(rest@) == end + authority_len(rest@.skip(end as int)),
        decreases rest@.len() - end,
    {
        assert(rest@.skip(end as int).skip(1) =~= rest@.skip(end + 1));
        end += 1;
    }
    if end == 0 {
        return Err(ServiceError::new("HTTP proxy request authority is empty"));
    }
    let authority = slice_subrange(rest.as_slice(), 0, end);
    assert(authority@ =~= rest@.take(end as int));
    let (host, port) = match parse_authority_with_default_port(authority, default_port) {
        Ok(target) => target,
        Err(error) => return Err(error),
    };
    let path = slice_subrange(rest.as_slice(), end, rest.len());
    assert(path@ =~= rest@.skip(end as int));
    let text = string_of(path);
    let form = if path.len() == 0 {
        "/".to_owned()
    } else if path[0] == '?' {
        join("/", text.as_str())
    } else {
        text
    };
    Ok((host, port, form))
}

/// Whether a line gives the right name and password.
pub open spec fn authorizes(line: Seq<char>, username: Seq<char>, password: Seq<char>) -> bool {
    match split_once(line, ":"@) {
        None => false,
        Some((name, value)) => {
            &&& lower(name) == lower("proxy-authorization"@)
            &&& begins_with(trim(value), "Basic "@)
            &&& base64_bytes(trim(trim(value).skip(6))) is Ok
            &&& base64_bytes(trim(trim(value).skip(6)))->Ok_0 == utf8(username + ":"@ + password)
        },
    }
}

fn line_authorizes(line: &[char], credentials: &HttpInboundCredentials) -> (yes: bool)
    ensures
        yes == authorizes(line@, credentials.username@, credentials.password@),
{
    let colon = chars_of(":");
    let (name, value) = match split_once_chars(line, colon.as_slice()) {
        None => return false,
        Some(parts) => parts,
    };
    let header = chars_of("proxy-authorization");
    if !same_ignoring_case(name.as_slice(), header.as_slice()) {
        return false;
    }
    let value = trim_chars(value.as_slice());
    let basic = chars_of("Basic ");
    proof {
        reveal_strlit("Basic ");
    }
    if !begins_with_chars(value.as_slice(), basic.as_slice()) {
        return false;
    }
    let rest = slice_subrange(value.as_slice(), 6, value.len());
    assert(rest@ =~= value@.skip(6));
    let encoded = trim_chars(rest);
    let encoded = string_of(encoded.as_slice());
    match base64_decode(encoded.as_str()) {
        Err(_) => false,
        Ok(decoded) => {
            let head = join(credentials.username.as_str(), ":");
            let expected = join(head.as_str(), credentials.password.as_str());
            same_bytes(decoded.as_slice(), expected.as_str().as_bytes())
        },
    }
}

/// Whether one of the lines after the first gives the right name and password.
pub open spec fn authorized(
    lines: Seq<Seq<char>>,
    username: Seq<char>,
    password: Seq<char>,
) -> bool {
    exists|i: int| 1 <= i < lines.len() && #[trigger] authorizes(lines[i], username, password)
}

fn headers_contain_valid_proxy_auth(
    lines: &Vec<Vec<char>>,
    credentials: &HttpInboundCredentials,
) -> (yes: bool)
    requires
        lines@.len() > 0,
    ensures
        yes == authorized(views(lines@), credentials.username@, credentials.password@),
{
    let mut i: usize = 1;
    while i < lines.len()
        invariant
            1 <= i <= lines@.len(),
            forall|j: int|
                1 <= j < i ==> !#[trigger] authorizes(
                    views(lines@)[j],
                    credentials.username@,
                    credentials.password@,
                ),
        decreases lines@.len() - i,
    {
        assert(views(lines@)[i as int] == lines@[i as int]@);
        if line_authorizes(lines[i].as_slice(), credentials) {
            assert(authorizes(
                views(lines@)[i as int],
                credentials.username@,
                credentials.password@,
            ));
            return true;
        }
        i += 1;
    }
    false
}

/// The name of a header.
pub open spec fn header_name(line: Seq<char>) -> Seq<char> {
    match split_once(line, ":"@) {
        Some((name, _)) => name,
        None => line,
    }
}

/// Whether a line is passed on: it is not empty and is not for the proxy.
pub open spec fn passed_on(line: Seq<char>) -> bool {
    &&& line.len() > 0
    &&& lower(header_name(line)) != lower("proxy-authorization"@)
    &&& lower(header_name(line)) != lower("proxy-connection"@)
}

/// The lines that are passed on, each with its end.
pub open spec fn forwarded(lines: Seq<Seq<char>>) -> Seq<char>
    decreases lines.len(),
{
    if lines.len() == 0 {
        Seq::empty()
    } else if passed_on(lines.last()) {
        forwarded(lines.drop_last()) + lines.last() + "\r\n"@
    } else {
        forwarded(lines.drop_last())
    }
}

fn is_passed_on(line: &[char]) -> (yes: bool)
    ensures
        yes == passed_on(line@),
{
    if line.len() == 0 {
        return false;
    }
    let colon = chars_of(":");
    let name = match split_once_chars(line, colon.as_slice()) {
        Some((name, _)) => name,
        None => {
            let name = sub_chars(line, 0, line.len());
            assert(name@ =~= line@);
            name
        },
    };
    let authorization = chars_of("proxy-authorization");
    let connection = chars_of("proxy-connection");
    !same_ignoring_case(name.as_slice(), authorization.as_slice()) && !same_ignoring_case(
        name.as_slice(),
        connection.as_slice(),
    )
}

fn forward_lines(head: String, lines: &Vec<Vec<char>>) -> (text: String)
    requires
        lines@.len() > 0,
    ensures
        text@ == head@ + forwarded(views(lines@).skip(1)),
{
    let mut text = head;
    let ghost start = text@;
    let mut i: usize = 1;
    assert(views(lines@).subrange(1, 1) =~= Seq::empty());
    assert(text@ =~= start + forwarded(views(lines@).subrange(1, 1)));
    while i < lines.len()
        invariant
            1 <= i <= lines@.len(),
            text@ == start + forwarded(views(lines@).subrange(1, i as int)),
        decreases lines@.len() - i,
    {
        let ghost before = views(lines@).subrange(1, i as int);
        let ghost upto = views(lines@).subrange(1, i + 1);
        assert(upto.drop_last() =~= before);
        assert(upto.last() == lines@[i as int]@);
        if is_passed_on(lines[i].as_slice()) {
            let line = string_of(lines[i].as_slice());
            text.append(line.as_str());
            text.append("\r\n");
            assert(text@ =~= start + forwarded(upto));
        }
        i += 1;
    }
    assert(views(lines@).subrange(1, lines@.len() as int) =~= views(lines@).skip(1));
    text
}

/// What a header asks for, with the bytes that follow it, or what is wrong with
/// it.
pub open spec fn request_of(
    header: Seq<u8>,
    leftover: Seq<u8>,
    credentials: Option<(Seq<char>, Seq<char>)>,
) -> Result<RequestModel, Seq<char>> {
    match from_utf8(header) {
        None => Err("HTTP proxy request is not valid UTF-8"@),
        Some(text) => {
            let lines = split(text, "\r\n"@);
            let (method, rest) = next_word(lines[0]);
            let (target, rest) = next_word(rest);
            let version = next_word(rest).0;
            if !begins_with(version, "HTTP/"@) {
                Err("HTTP proxy request has invalid version"@)
            } else if credentials is Some && !authorized(
                lines,
                credentials->Some_0.0,
                credentials->Some_0.1,
            ) {
                Err(AUTHENTICATION_REQUIRED@)
            } else if method == "CONNECT"@ {
                match authority_of(target) {
                    Err(message) => Err(message),
                    Ok((host, port)) => Ok(
                        RequestModel { host, port, is_connect: true, prefix: leftover },
                    ),
                }
            } else {
                match absolute_target(target) {
                    Err(message) => Err(message),
                    Ok((host, port, path)) => Ok(
                        RequestModel {
                            host,
                            port,
                            is_connect: false,
                            prefix: utf8(
                                method + " "@ + path + " "@ + version + "\r\n"@ + forwarded(
                                    lines.skip(1),
                                ) + "\r\n"@,
                            ) + leftover,
                        },
                    ),
                }
            }
        },
    }
}

/// Reads a request whose header ends at `header_end`.
pub fn parse_proxy_request(
    bytes: &[u8],
    header_end: usize,
    credentials: &Option<HttpInboundCredentials>,
) -> (request: Result<HttpProxyRequest, ServiceError>)
    requires
        header_end + 4 <= bytes.len(),
    ensures
        match request_of(
            bytes@.take(header_end as int),
            bytes@.skip(header_end + 4),
            credentials_view(*credentials),
        ) {
            Ok(model) => request matches Ok(request) && request@ == model,
            Err(message) => request matches Err(error) && error.message@ == message,
        },
{
    let header = slice_subrange(bytes, 0, header_end);
    assert(header@ =~= bytes@.take(header_end as int));
    let leftover = copy_range(bytes, header_end + 4, bytes.len());
    assert(leftover@ =~= bytes@.skip(header_end + 4));
    let text = match text_from_utf8(header) {
        Ok(text) => text,
        Err(_) => return Err(ServiceError::new("HTTP proxy request is not valid UTF-8")),
    };
    let chars = chars_of(text.as_str());
    let end_of_line = chars_of("\r\n");
    proof {
        reveal_strlit("\r\n");
    }
    let lines = split_chars(chars.as_slice(), end_of_line.as_slice());
    assert(views(lines@)[0] == lines@[0]@);
    let (method, rest) = next_word_chars(lines[0].as_slice());
    let (target, rest) = next_word_chars(rest.as_slice());
    let (version, _) = next_word_chars(rest.as_slice());
    let http = chars_of("HTTP/");
    if !begins_with_chars(version.as_slice(), http.as_slice()) {
        return Err(ServiceError::new("HTTP proxy request has invalid version"));
    }
    if let Some(credentials) = credentials {
        if !headers_contain_valid_proxy_auth(&lines, credentials) {
            return Err(ServiceError::new(AUTHENTICATION_REQUIRED));
        }
    }
    let connect = chars_of("CONNECT");
    if same_chars(method.as_slice(), connect.as_slice()) {
        return match parse_authority(target.as_slice()) {
            Err(error) => Err(error),
            Ok((host, port)) => Ok(
                HttpProxyRequest {
                    host: string_of(host.as_slice()),
                    port,
                    is_connect: true,
                    prefix: leftover,
                },
            ),
        };
    }
    let (host, port, path) = match parse_absolute_form_target(target.as_slice()) {
        Ok(target) => target,
        Err(error) => return Err(error),
    };
    let mut head = string_of(method.as_slice());
    let version_text = string_of(version.as_slice());
    head.append(" ");
    head.append(path.as_str());
    head.append(" ");
    head.append(version_text.as_str());
    head.append("\r\n");
    let mut head = forward_lines(head, &lines);
    head.append("\r\n");
    let bytes = head.as_str().as_bytes();
    let mut prefix = copy_range(bytes, 0, bytes.len());
    assert(prefix@ =~= utf8(head@));
    push_all(&mut prefix, leftover.as_slice());
    Ok(HttpProxyRequest { host: string_of(host.as_slice()), port, is_connect: false, prefix })
}

/// The flow with a number of a request that was accepted from a peer.
pub open spec fn http_flow(
    id: u64,
    inbound: u64,
    peer: EndpointModel,
    target: EndpointModel,
) -> FlowModel {
    FlowModel {
        id,
        inbound,
        interface: None,
        network: Network::Tcp,
        source: peer,
        destination: target,
        domain: Some(target.host),
        protocol_hint: Some(ProtocolHint::Http),
    }
}

impl HttpProxyRequest {
    /// Where the request goes; `literal` is the address that its host writes.
    pub open spec fn target_of(self, literal: Option<IpAddress>) -> EndpointModel {
        EndpointModel {
            host: match literal {
                Some(ip) => HostModel::Ip(ip@),
                None => HostModel::Domain(self.host@),
            },
            port: self.port,
        }
    }

    /// Where the request goes; `literal` is the address that its host writes.
    pub fn target(&self, literal: Option<IpAddress>) -> (target: Endpoint)
        ensures
            target@ == self.target_of(literal),
    {
        let host = match literal {
            Some(ip) => Host::Ip(ip),
            None => Host::Domain(self.host.as_str().to_owned()),
        };
        Endpoint::new(host, self.port)
    }

    pub(crate) fn flow(
        &self,
        id: u64,
        inbound: u64,
        peer: Endpoint,
        literal: Option<IpAddress>,
    ) -> (flow: InboundFlow)
        ensures
            flow@ == http_flow(id, inbound, peer@, self.target_of(literal)),
    {
        let destination = self.target(literal);
        let domain = Some(destination.host.duplicate());
        InboundFlow {
            id,
            inbound,
            interface: None,
            meta: FlowMeta {
                network: Network::Tcp,
                source: peer,
                destination,
                domain,
                protocol_hint: Some(ProtocolHint::Http),
            },
        }
    }
}

/// What was read of a request.
pub struct RequestReader {
    pub bytes: Vec<u8>,
}

/// What comes of reading on.
pub enum RequestStep {
    /// More is to be read.
    More,
    Done(Result<HttpProxyRequest, ServiceError>),
}

/// The same over plain values.
pub enum ReadModel {
    More,
    Refused(Seq<char>),
    Asks(RequestModel),
}

/// What comes of the bytes that were read of a request; `closed` where the client
/// sent no more.
pub open spec fn read_on(
    bytes: Seq<u8>,
    closed: bool,
    credentials: Option<(Seq<char>, Seq<char>)>,
) -> ReadModel {
    if closed {
        ReadModel::Refused("connection closed before HTTP headers"@)
    } else {
        match find(bytes, blank_line()) {
            Some(at) => match request_of(bytes.take(at), bytes.skip(at + 4), credentials) {
                Ok(request) => ReadModel::Asks(request),
                Err(message) => ReadModel::Refused(message),
            },
            None => if bytes.len() < MAX_HEADER_BYTES {
                ReadModel::More
            } else {
                ReadModel::Refused("HTTP proxy headers exceeded limit"@)
            },
        }
    }
}

impl RequestStep {
    pub open spec fn view(&self) -> ReadModel {
        match *self {
            RequestStep::More => ReadModel::More,
            RequestStep::Done(Ok(request)) => ReadModel::Asks(request@),
            RequestStep::Done(Err(error)) => ReadModel::Refused(error.message@),
        }
    }

    /// Whether the request was refused with a message.
    pub open spec fn refused(self, message: Seq<char>) -> bool {
        self matches RequestStep::Done(Err(error)) && error.message@ == message
    }
}

impl RequestReader {
    pub fn new() -> (reader: RequestReader)
        ensures
            reader.bytes@ == Seq::<u8>::empty(),
    {
        RequestReader { bytes: Vec::new() }
    }

    /// The client sent some bytes; none where it closed the connection.
    pub fn received(&mut self, read: &[u8], credentials: &Option<HttpInboundCredentials>) -> (step:
        RequestStep)
        ensures
            final(self).bytes@ == old(self).bytes@ + read@,
            if read@.len() == 0 {
                step.refused("connection closed before HTTP headers"@)
            } else {
                let bytes = old(self).bytes@ + read@;
                match find(bytes, blank_line()) {
                    Some(at) => match request_of(
                        bytes.take(at),
                        bytes.skip(at + 4),
                        credentials_view(*credentials),
                    ) {
                        Ok(model) => step matches RequestStep::Done(Ok(request)) && request@
                            == model,
                        Err(message) => step.refused(message),
                    },
                    None => if bytes.len() < MAX_HEADER_BYTES {
                        step is More
                    } else {
                        step.refused("HTTP proxy headers exceeded limit"@)
                    },
                }
            },
            step@ == read_on(
                old(self).bytes@ + read@,
                read@.len() == 0,
                credentials_view(*credentials),
            ),
    {
        push_all(&mut self.bytes, read);
        if read.len() == 0 {
            return RequestStep::Done(
                Err(ServiceError::new("connection closed before HTTP headers")),
            );
        }
        match find_header_end(self.bytes.as_slice()) {
            Some(at) => RequestStep::Done(
                parse_proxy_request(self.bytes.as_slice(), at, credentials),
            ),
            None => if self.bytes.len() < MAX_HEADER_BYTES {
                RequestStep::More
            } else {
                RequestStep::Done(Err(ServiceError::new("HTTP proxy headers exceeded limit")))
            },
        }
    }
}

/// What an answer says.
pub open spec fn answer_view(reply: Option<&'static str>) -> Option<Seq<char>> {
    match reply {
        Some(text) => Some(text@),
        None => None,
    }
}

/// The answer to a request for a tunnel or for something else, or to one that was
/// refused with a message.
pub open spec fn answer_to(request: Result<bool, Seq<char>>) -> Option<Seq<char>> {
    match request {
        Ok(true) => Some(ESTABLISHED_REPLY@),
        Ok(false) => None,
        Err(message) => if message == AUTHENTICATION_REQUIRED@ {
            Some(AUTHENTICATE_REPLY@)
        } else {
            Some(BAD_REQUEST_REPLY@)
        },
    }
}

/// What the client is answered before anything else; nothing where its request
/// is passed on.
pub fn reply_to(request: &Result<HttpProxyRequest, ServiceError>) -> (reply: Option<&'static str>)
    ensures
        match *request {
            Ok(request) => if request.is_connect {
                reply matches Some(text) && text@ == ESTABLISHED_REPLY@
            } else {
                reply is None
            },
            Err(error) => reply matches Some(text) && text@ == (if error.message@
                == AUTHENTICATION_REQUIRED@ {
                AUTHENTICATE_REPLY@
            } else {
                BAD_REQUEST_REPLY@
            }),
        },
        answer_view(reply) == answer_to(
            match *request {
                Ok(request) => Ok(request.is_connect),
                Err(error) => Err(error.message@),
            },
        ),
{
    match request {
        Ok(request) => if request.is_connect {
            Some(ESTABLISHED_REPLY)
        } else {
            None
        },
        Err(error) => if same_text(error.message.as_str(), AUTHENTICATION_REQUIRED) {
            Some(AUTHENTICATE_REPLY)
        } else {
            Some(BAD_REQUEST_REPLY)
        },
    }
}

/// Whether a request that is refused is told to the observers: one that lacks
/// credentials is not.
pub fn is_reported(error: &ServiceError) -> (yes: bool)
    ensures
        yes == (error.message@ != AUTHENTICATION_REQUIRED@),
{
    !same_text(error.message.as_str(), AUTHENTICATION_REQUIRED)
}

/// A service that accepts proxy requests.
pub struct HttpProxyInbound {
    pub id: u64,
    pub listen: Endpoint,
    pub credentials: Option<HttpInboundCredentials>,
    pub flow_ids: FlowIds,
    pub lifecycle: Lifecycle,
}

impl HttpProxyInbound {
    pub fn new(id: u64, listen: Endpoint) -> (inbound: HttpProxyInbound)
        ensures
            inbound.id == id,
            inbound.listen == listen,
            inbound.credentials is None,
            inbound.flow_ids.next == 1,
            !inbound.lifecycle.started,
            inbound.lifecycle.local_endpoint is None,
    {
        HttpProxyInbound {
            id,
            listen,
            credentials: None,
            flow_ids: FlowIds::new(),
            lifecycle: Lifecycle::new(),
        }
    }

    pub fn with_credentials(self, credentials: HttpInboundCredentials) -> (inbound:
        HttpProxyInbound)
        ensures
            inbound == (HttpProxyInbound { credentials: Some(credentials), ..self }),
    {
        HttpProxyInbound {
            id: self.id,
            listen: self.listen,
            credentials: Some(credentials),
            flow_ids: self.flow_ids,
            lifecycle: self.lifecycle,
        }
    }

    /// Where the service listens, once it does.
    pub fn local_endpoint(&self) -> (local: Option<Endpoint>)
        ensures
            endpoint_view(local) == endpoint_view(self.lifecycle.local_endpoint),
    {
        self.lifecycle.local_endpoint()
    }

    /// Starts; the service is to listen where it was told to.
    pub fn start(&mut self) -> (done: Result<(), ServiceError>)
        ensures
            *final(self) == (HttpProxyInbound { lifecycle: final(self).lifecycle, ..*old(self) }),
            final(self).lifecycle.started,
            final(self).lifecycle.local_endpoint == old(self).lifecycle.local_endpoint,
            match done {
                Ok(()) => !old(self).lifecycle.started,
                Err(error) => old(self).lifecycle.started && error.message@
                    == "http inbound already started"@,
            },
    {
        self.lifecycle.start("http inbound already started")
    }

    /// The flow of a request that was accepted from a peer; `literal` is the
    /// address that its host writes.
    pub fn accepted(
        &mut self,
        peer: Endpoint,
        request: &HttpProxyRequest,
        literal: Option<IpAddress>,
    ) -> (flow: InboundFlow)
        ensures
            *final(self) == (HttpProxyInbound { flow_ids: final(self).flow_ids, ..*old(self) }),
            final(self).flow_ids.next == after(old(self).flow_ids.next),
            flow@ == http_flow(
                flow_id(old(self).flow_ids.next),
                old(self).id,
                peer@,
                request.target_of(literal),
            ),
    {
        let id: u64 = self.flow_ids.take();
        request.flow(id, self.id, peer, literal)
    }
}

/// A stream that begins with bytes that were read ahead.
pub struct PrefixedByteStream {
    pub prefix: Vec<u8>,
    pub offset: usize,
}

impl PrefixedByteStream {
    pub open spec fn wf(self) -> bool {
        self.offset <= self.prefix@.len()
    }

    /// What was read ahead and not yet given.
    pub open spec fn waiting(self) -> Seq<u8> {
        self.prefix@.skip(self.offset as int)
    }

    pub fn new(prefix: Vec<u8>) -> (stream: PrefixedByteStream)
        ensures
            stream.wf(),
            stream.waiting() == prefix@,
    {
        let stream = PrefixedByteStream { prefix, offset: 0 };
        assert(stream.waiting() =~= prefix@);
        stream
    }

    /// What a read into `room` bytes gives; `None` where the stream below is to
    /// be read.
    pub fn poll_read(&mut self, room: usize) -> (bytes: Option<Vec<u8>>)
        requires
            old(self).wf(),
        ensures
            final(self).wf(),
            ({
                let waiting = old(self).waiting();
                if waiting.len() > 0 && room > 0 {
                    let count = if room < waiting.len() {
                        room as int
                    } else {
                        waiting.len() as int
                    };
                    &&& bytes matches Some(bytes) && bytes@ == waiting.take(count)
                    &&& final(self).waiting() == waiting.skip(count)
                } else {
                    bytes is None && final(self).waiting() == waiting
                }
            }),
    {
        let left: usize = self.prefix.len() - self.offset;
        if left == 0 || room == 0 {
            return None;
        }
        let count: usize = if room < left {
            room
        } else {
            left
        };
        let bytes = copy_range(self.prefix.as_slice(), self.offset, self.offset + count);
        assert(bytes@ =~= self.waiting().take(count as int));
        let ghost waiting = self.waiting();
        self.offset = self.offset + count;
        assert(self.waiting() =~= waiting.skip(count as int));
        Some(bytes)
    }
}

/// Whether a host can stand in a request: it has no white space, and brackets
/// only where they cannot be mistaken.
pub open spec fn writable(host: HostModel, text: Seq<char>) -> bool {
    &&& forall|i: int| 0 <= i < text.len() ==> !is_white(#[trigger] text[i])
    &&& match host {
        HostModel::Ip(IpModel::V6(_)) => !text.contains(']'),
        _ => text.len() == 0 || text[0] != '[',
    }
}

/// The target that a client writes is the target that is read.
pub proof fn law_authority_round_trip(host: HostModel, text: Seq<char>, port: u16)
    requires
        writable(host, text),
    ensures
        authority_of(authority(host, text, port)) == Ok::<(Seq<char>, u16), Seq<char>>((text, port)),
{
    let digits = decimal(port as nat);
    let written = authority(host, text, port);
    lemma_decimal_round_trip(port as nat, 0xffff);
    lemma_decimal_word(port as nat);
    match host {
        HostModel::Ip(IpModel::V6(_)) => {
            reveal_strlit("[");
            reveal_strlit("]:");
            assert(written.skip(1) =~= text + "]:"@ + digits);
            lemma_split_piece(text, "]:"@, digits);
        },
        _ => {
            reveal_strlit(":");
            assert(written =~= text.push(':') + digits);
            assert forall|i: int| 0 <= i < digits.len() implies digits[i] != ':' by {
                assert('0' <= digits[i] && digits[i] <= '9');
            }
            lemma_rsplit_piece(text, ':', digits);
            assert(written[0] != '[') by {
                if text.len() > 0 {
                    assert(written[0] == text[0]);
                } else {
                    assert(written[0] == ':');
                }
            }
        },
    }
}

/// Lines with ends between them.
spec fn joined(lines: Seq<Seq<char>>) -> Seq<char>
    decreases lines.len(),
{
    if lines.len() <= 1 {
        lines[0]
    } else {
        lines[0] + "\r\n"@ + joined(lines.skip(1))
    }
}

/// Whether each line is one: it is not empty and holds no end of a line.
spec fn plain_lines(lines: Seq<Seq<char>>) -> bool {
    lines.len() > 0 && forall|i: int|
        0 <= i < lines.len() ==> (#[trigger] lines[i]).len() > 0 && !lines[i].contains('\r')
}

proof fn lemma_joined(lines: Seq<Seq<char>>, leftover: Seq<u8>)
    requires
        plain_lines(lines),
    ensures
        split(joined(lines), "\r\n"@) == lines,
        ({
            let bytes = utf8(joined(lines)) + blank_line() + leftover;
            &&& bytes[0] != 13
            &&& utf8(joined(lines)).len() > 0
            &&& forall|at: int|
                0 <= at < utf8(joined(lines)).len() ==> !occurs_at(bytes, blank_line(), at)
        }),
    decreases lines.len(),
{
    reveal_strlit("\r\n");
    let first = lines[0];
    let text = joined(lines);
    let bytes = utf8(text) + blank_line() + leftover;
    lemma_utf8_without(first, '\r');
    lemma_utf8_nonempty(first);
    let head = utf8(first);
    assert forall|i: int| 0 <= i < head.len() implies head[i] != 13 by {
        assert(head.contains(head[i]));
    }
    if lines.len() == 1 {
        lemma_split_whole(first, "\r\n"@);
        assert(lines =~= seq![first]);
        assert forall|at: int| 0 <= at < head.len() implies !occurs_at(bytes, blank_line(), at) by {
            if occurs_at(bytes, blank_line(), at) {
                assert(bytes.subrange(at, at + 4)[0] == bytes[at]);
                assert(bytes[at] == head[at]);
            }
        }
    } else {
        let rest = lines.skip(1);
        assert(plain_lines(rest)) by {
            assert forall|i: int| 0 <= i < rest.len() implies (#[trigger] rest[i]).len() > 0
                && !rest[i].contains('\r') by {
                assert(rest[i] == lines[i + 1]);
            }
        }
        lemma_joined(rest, leftover);
        lemma_split_piece(first, "\r\n"@, joined(rest));
        assert(seq![first] + rest =~= lines);
        lemma_utf8_concat(first + "\r\n"@, joined(rest));
        lemma_utf8_concat(first, "\r\n"@);
        vstd::utf8::is_ascii_chars_encode_utf8("\r\n"@);
        let after = utf8(joined(rest)) + blank_line() + leftover;
        let mark = utf8("\r\n"@);
        assert(mark =~= seq![13u8, 10u8]);
        assert(bytes =~= head + mark + after);
        assert forall|at: int| 0 <= at < utf8(text).len() implies !occurs_at(
            bytes,
            blank_line(),
            at,
        ) by {
            if occurs_at(bytes, blank_line(), at) {
                let here = bytes.subrange(at, at + 4);
                assert(here[0] == bytes[at]);
                assert(here[2] == bytes[at + 2]);
                if at < head.len() {
                    assert(bytes[at] == head[at]);
                } else if at == head.len() {
                    assert(bytes[at + 2] == after[0]);
                } else if at == head.len() + 1 {
                    assert(bytes[at] == 10);
                } else {
                    let shifted = at - head.len() - 2;
                    assert(after.subrange(shifted, shifted + 4) =~= here);
                    assert(occurs_at(after, blank_line(), shifted));
                }
            }
        }
    }
}

/// The lines of the request for a tunnel.
spec fn request_lines(
    authority: Seq<char>,
    credentials: Option<(Seq<char>, Seq<char>)>,
) -> Seq<Seq<char>> {
    let plain = seq![
        "CONNECT "@ + authority + " HTTP/1.1"@,
        "Host: "@ + authority,
        "Proxy-Connection: Keep-Alive"@,
    ];
    match credentials {
        Some((username, password)) => plain.push(proof_line(username, password)),
        None => plain,
    }
}

proof fn lemma_request_lines(authority: Seq<char>, credentials: Option<(Seq<char>, Seq<char>)>)
    requires
        is_word(authority),
        provable(credentials),
    ensures
        plain_lines(request_lines(authority, credentials)),
        request_text(authority, credentials) == joined(request_lines(authority, credentials))
            + "\r\n"@ + "\r\n"@,
{
    let lines = request_lines(authority, credentials);
    reveal_strlit("CONNECT ");
    reveal_strlit(" HTTP/1.1");
    reveal_strlit(" HTTP/1.1\r\nHost: ");
    reveal_strlit("Host: ");
    reveal_strlit("\r\n");
    reveal_strlit("\r\nProxy-Connection: Keep-Alive\r\n");
    reveal_strlit("Proxy-Connection: Keep-Alive");
    reveal_strlit("Proxy-Authorization: Basic ");
    assert(" HTTP/1.1\r\nHost: "@ =~= " HTTP/1.1"@ + "\r\n"@ + "Host: "@);
    assert("\r\nProxy-Connection: Keep-Alive\r\n"@ =~= "\r\n"@ + "Proxy-Connection: Keep-Alive"@
        + "\r\n"@);
    assert forall|i: int| 0 <= i < lines.len() implies (#[trigger] lines[i]).len() > 0
        && !lines[i].contains('\r') by {
        assert forall|j: int| 0 <= j < lines[i].len() implies lines[i][j] != '\r' by {
            if i == 0 && 8 <= j && j < 8 + authority.len() {
                assert(lines[0][j] == authority[j - 8]);
            } else if i == 1 && 6 <= j {
                assert(lines[1][j] == authority[j - 6]);
            } else if i == 3 {
                assert(lines[3].contains(lines[3][j]));
            }
        }
    }
    let one = lines.skip(1);
    let two = one.skip(1);
    assert(joined(lines) == lines[0] + "\r\n"@ + joined(one));
    assert(joined(one) == lines[1] + "\r\n"@ + joined(two));
    match credentials {
        Some(_) => {
            let three = two.skip(1);
            assert(joined(two) == lines[2] + "\r\n"@ + joined(three));
            assert(joined(three) == lines[3]);
        },
        None => {
            assert(joined(two) == lines[2]);
        },
    }
    assert(request_text(authority, credentials) =~= joined(lines) + "\r\n"@ + "\r\n"@);
}

proof fn lemma_first_line(target: Seq<char>)
    requires
        is_word(target),
    ensures
        ({
            let line = "CONNECT "@ + target + " HTTP/1.1"@;
            let (method, rest) = next_word(line);
            let (found, rest) = next_word(rest);
            &&& method == "CONNECT"@
            &&& found == target
            &&& begins_with(next_word(rest).0, "HTTP/"@)
        }),
{
    reveal_strlit("CONNECT");
    reveal_strlit("CONNECT ");
    reveal_strlit(" HTTP/1.1");
    reveal_strlit("HTTP/1.1");
    reveal_strlit("HTTP/");
    let line = "CONNECT "@ + target + " HTTP/1.1"@;
    let tail = " HTTP/1.1"@;
    assert(line =~= "CONNECT"@ + (seq![' '] + target + tail));
    lemma_next_word("CONNECT"@, seq![' '] + target + tail);
    lemma_next_word(target, tail);
    assert(tail =~= seq![' '] + "HTTP/1.1"@ + Seq::<char>::empty());
    lemma_next_word("HTTP/1.1"@, Seq::empty());
    assert("HTTP/1.1"@.subrange(0, 5) =~= "HTTP/"@);
}

proof fn lemma_header_found(lines: Seq<Seq<char>>, leftover: Seq<u8>)
    requires
        plain_lines(lines),
    ensures
        ({
            let bytes = utf8(joined(lines) + "\r\n"@ + "\r\n"@) + leftover;
            let at = utf8(joined(lines)).len() as int;
            &&& find(bytes, blank_line()) == Some(at)
            &&& bytes.take(at) == utf8(joined(lines))
            &&& bytes.skip(at + 4) == leftover
        }),
{
    let header = joined(lines);
    lemma_joined(lines, leftover);
    reveal_strlit("\r\n");
    vstd::utf8::is_ascii_chars_encode_utf8("\r\n"@);
    lemma_utf8_concat(header + "\r\n"@, "\r\n"@);
    lemma_utf8_concat(header, "\r\n"@);
    let bytes = utf8(header + "\r\n"@ + "\r\n"@) + leftover;
    let at = utf8(header).len() as int;
    assert(bytes =~= utf8(header) + blank_line() + leftover);
    assert(bytes.subrange(at, at + 4) =~= blank_line());
    lemma_find_first(bytes, blank_line(), at);
    assert(bytes.take(at) =~= utf8(header));
    assert(bytes.skip(at + 4) =~= leftover);
}

proof fn lemma_lines_split(lines: Seq<Seq<char>>)
    requires
        plain_lines(lines),
    ensures
        split(joined(lines), "\r\n"@) == lines,
{
    lemma_joined(lines, Seq::empty());
}

proof fn lemma_connect_accepted(
    header: Seq<u8>,
    leftover: Seq<u8>,
    credentials: Option<(Seq<char>, Seq<char>)>,
    lines: Seq<Seq<char>>,
    target: Seq<char>,
    host: Seq<char>,
    port: u16,
)
    requires
        from_utf8(header) is Some,
        split(from_utf8(header)->0, "\r\n"@) == lines,
        lines[0] == "CONNECT "@ + target + " HTTP/1.1"@,
        is_word(target),
        authority_of(target) == Ok::<(Seq<char>, u16), Seq<char>>((host, port)),
        credentials matches Some((username, password)) ==> authorized(lines, username, password),
    ensures
        request_of(header, leftover, credentials) == Ok::<RequestModel, Seq<char>>(
            RequestModel { host, port, is_connect: true, prefix: leftover },
        ),
{
    lemma_first_line(target);
}

proof fn lemma_authority_word(host: HostModel, text: Seq<char>, port: u16)
    requires
        writable(host, text),
    ensures
        is_word(authority(host, text, port)),
{
    lemma_decimal_word(port as nat);
    reveal_strlit("[");
    reveal_strlit("]:");
    reveal_strlit(":");
}

proof fn lemma_lines_authorize(
    authority: Seq<char>,
    username: Seq<char>,
    password: Seq<char>,
)
    requires
        provable(Some((username, password))),
    ensures
        authorized(request_lines(authority, Some((username, password))), username, password),
{
    let lines = request_lines(authority, Some((username, password)));
    assert(lines[3] == proof_line(username, password));
    assert(authorizes(lines[3], username, password));
}

/// Whether some bytes hold the request for a tunnel to a host, and what follows
/// it.
pub open spec fn asks_for(
    bytes: Seq<u8>,
    credentials: Option<(Seq<char>, Seq<char>)>,
    host: Seq<char>,
    port: u16,
    leftover: Seq<u8>,
) -> bool {
    match find(bytes, blank_line()) {
        Some(at) => request_of(bytes.take(at), bytes.skip(at + 4), credentials) == Ok::<
            RequestModel,
            Seq<char>,
        >(RequestModel { host, port, is_connect: true, prefix: leftover }),
        None => false,
    }
}

proof fn lemma_asks_for(
    lines: Seq<Seq<char>>,
    credentials: Option<(Seq<char>, Seq<char>)>,
    target: Seq<char>,
    host: Seq<char>,
    port: u16,
    leftover: Seq<u8>,
)
    requires
        plain_lines(lines),
        lines[0] == "CONNECT "@ + target + " HTTP/1.1"@,
        is_word(target),
        authority_of(target) == Ok::<(Seq<char>, u16), Seq<char>>((host, port)),
        credentials matches Some((username, password)) ==> authorized(lines, username, password),
    ensures
        asks_for(
            utf8(joined(lines) + "\r\n"@ + "\r\n"@) + leftover,
            credentials,
            host,
            port,
            leftover,
        ),
{
    lemma_lines_split(lines);
    lemma_header_found(lines, leftover);
    lemma_utf8_round_trip(joined(lines));
    lemma_connect_accepted(
        utf8(joined(lines)),
        leftover,
        credentials,
        lines,
        target,
        host,
        port,
    );
}

proof fn lemma_written_request(
    target: Seq<char>,
    host: Seq<char>,
    port: u16,
    credentials: Option<(Seq<char>, Seq<char>)>,
    leftover: Seq<u8>,
)
    requires
        is_word(target),
        authority_of(target) == Ok::<(Seq<char>, u16), Seq<char>>((host, port)),
        provable(credentials),
    ensures
        asks_for(
            utf8(request_text(target, credentials)) + leftover,
            credentials,
            host,
            port,
            leftover,
        ),
{
    lemma_request_lines(target, credentials);
    if let Some((username, password)) = credentials {
        lemma_lines_authorize(target, username, password);
    }
    lemma_asks_for(
        request_lines(target, credentials),
        credentials,
        target,
        host,
        port,
        leftover,
    );
}

/// The request for a tunnel that a client writes is accepted by a proxy that
/// asks for the client's name and password, or for none, and names the same
/// target; what follows it is passed on.
pub proof fn law_request_accepted(
    host: HostModel,
    text: Seq<char>,
    port: u16,
    credentials: Option<(Seq<char>, Seq<char>)>,
    leftover: Seq<u8>,
)
    requires
        writable(host, text),
    ensures
        provable(credentials) ==> asks_for(
            utf8(request_text(authority(host, text, port), credentials)) + leftover,
            credentials,
            text,
            port,
            leftover,
        ),
{
    if provable(credentials) {
        lemma_authority_word(host, text, port);
        law_authority_round_trip(host, text, port);
        lemma_written_request(authority(host, text, port), text, port, credentials, leftover);
    }
}

} // verus!
