//! Tunnels through an HTTP proxy.
use crate::crypto::{
    all_base64_symbols, base64_bytes, base64_encode, base64_symbol, base64_text,
};
use crate::inbound::http::authorizes;
use crate::octets::{copy_range, push_all};
use crate::text::{
    begins_with, begins_with_chars, chars_of, decimal, decimal_text, find, find_bytes, from_utf8,
    is_white, is_word, join, law_first_line, lemma_next_word, lemma_split_piece,
    lemma_utf8_nonempty, lemma_utf8_round_trip, lines, lines_chars, lower, next_word,
    next_word_chars, same_chars, string_of, text_from_utf8, trim, trim_start, utf8, views,
};
use crate::types::{Endpoint, Host, HostModel, IpAddress, IpModel, OutboundError};
use vstd::prelude::*;

verus! {

/// No more than this is read of the proxy's answer.
pub const MAX_CONNECT_RESPONSE_BYTES: usize = 16384;

/// A name and a password for the proxy.
#[derive(Clone, Debug, PartialEq, Eq)]
pub struct HttpProxyCredentials {
    pub username: String,
    pub password: String,
}

/// What credentials hold.
pub open spec fn credentials_view(credentials: Option<HttpProxyCredentials>) -> Option<
    (Seq<char>, Seq<char>),
> {
    match credentials {
        Some(credentials) => Some((credentials.username@, credentials.password@)),
        None => None,
    }
}

/// A proxy and how a client proves itself to it.
pub struct HttpProxyOutbound {
    pub proxy: Endpoint,
    pub credentials: Option<HttpProxyCredentials>,
}

/// A target as it stands in a request: an address of version six in brackets.
pub open spec fn authority(host: HostModel, host_text: Seq<char>, port: u16) -> Seq<char> {
    (match host {
        HostModel::Ip(IpModel::V6(_)) => "["@ + host_text + "]:"@,
        _ => host_text + ":"@,
    }) + decimal(port as nat)
}

/// A target as it stands in a request; `host_text` is its host in text form.
pub fn endpoint_authority(endpoint: &Endpoint, host_text: &str) -> (text: String)
    ensures
        text@ == authority(endpoint@.host, host_text@, endpoint@.port),
{
    let port = decimal_text(endpoint.port as u64);
    let head = match &endpoint.host {
        Host::Ip(IpAddress::V6(_)) => {
            let open = join("[", host_text);
            join(open.as_str(), "]:")
        },
        _ => join(host_text, ":"),
    };
    join(head.as_str(), port.as_str())
}

/// The line by which a client proves itself.
pub open spec fn authorization_line(credentials: Option<(Seq<char>, Seq<char>)>) -> Seq<char> {
    match credentials {
        Some((username, password)) => "Proxy-Authorization: Basic "@ + base64_text(
            utf8(username + ":"@ + password),
        ) + "\r\n"@,
        None => Seq::empty(),
    }
}

/// The same line without its end.
pub open spec fn proof_line(username: Seq<char>, password: Seq<char>) -> Seq<char> {
    "Proxy-Authorization: Basic "@ + base64_text(utf8(username + ":"@ + password))
}

/// Whether a proxy that asks for this name and password accepts the line that
/// gives them.
pub open spec fn provable(credentials: Option<(Seq<char>, Seq<char>)>) -> bool {
    credentials matches Some((username, password)) ==> {
        &&& authorizes(proof_line(username, password), username, password)
        &&& !proof_line(username, password).contains('\r')
    }
}

proof fn lemma_trim_symbols(text: Seq<char>)
    requires
        text.len() > 0,
        !is_white(text[0]),
        !is_white(text.last()),
    ensures
        trim(text) == text,
        trim(seq![' '] + text) == text,
{
    let spaced = seq![' '] + text;
    assert(spaced.skip(1) =~= text);
    assert(trim_start(text) == text);
    assert(trim_start(spaced) == trim_start(spaced.skip(1)));
}

/// A name and a password that were encoded are what a proxy asks for.
proof fn lemma_line_authorizes(username: Seq<char>, password: Seq<char>)
    requires
        ({
            let bytes = utf8(username + ":"@ + password);
            &&& base64_text(bytes).len() > 0
            &&& all_base64_symbols(base64_text(bytes))
            &&& base64_bytes(base64_text(bytes)) is Ok
            &&& base64_bytes(base64_text(bytes))->Ok_0 == bytes
        }),
    ensures
        provable(Some((username, password))),
{
    let encoded = base64_text(utf8(username + ":"@ + password));
    let line = proof_line(username, password);
    reveal_strlit("Proxy-Authorization: Basic ");
    reveal_strlit("proxy-authorization");
    reveal_strlit("Basic ");
    reveal_strlit(":");
    let name = "Proxy-Authorization: Basic "@.take(19);
    let value = " "@ + "Basic "@ + encoded;
    reveal_strlit(" ");
    assert(line =~= name + ":"@ + value);
    assert forall|i: int| 0 <= i < name.len() implies name[i] != ':' by {}
    lemma_split_piece(name, ":"@, value);
    assert(lower(name) =~= lower("proxy-authorization"@));
    let rest = "Basic "@ + encoded;
    assert(value =~= seq![' '] + rest);
    assert(base64_symbol(encoded[0]));
    assert(base64_symbol(encoded.last()));
    assert(rest.last() == encoded.last());
    lemma_trim_symbols(rest);
    assert(rest.subrange(0, 6) =~= "Basic "@);
    assert(rest.skip(6) =~= encoded);
    lemma_trim_symbols(encoded);
    assert forall|i: int| 0 <= i < line.len() implies line[i] != '\r' by {
        if i >= 27 {
            assert(line[i] == encoded[i - 27]);
            assert(base64_symbol(encoded[i - 27]));
        } else {
            assert(line[i] == "Proxy-Authorization: Basic "@[i]);
        }
    }
}

/// The request for a tunnel.
pub open spec fn request_text(
    authority: Seq<char>,
    credentials: Option<(Seq<char>, Seq<char>)>,
) -> Seq<char> {
    "CONNECT "@ + authority + " HTTP/1.1\r\nHost: "@ + authority
        + "\r\nProxy-Connection: Keep-Alive\r\n"@ + authorization_line(credentials) + "\r\n"@
}

/// The request for a tunnel to a target; `host_text` is its host in text form.
pub fn connect_request(
    target: &Endpoint,
    host_text: &str,
    credentials: &Option<HttpProxyCredentials>,
) -> (request: String)
    ensures
        request@ == request_text(
            authority(target@.host, host_text@, target@.port),
            credentials_view(*credentials),
        ),
        provable(credentials_view(*credentials)),
{
    let authority = endpoint_authority(target, host_text);
    let mut request = join("CONNECT ", authority.as_str());
    request.append(" HTTP/1.1\r\nHost: ");
    request.append(authority.as_str());
    request.append("\r\nProxy-Connection: Keep-Alive\r\n");
    let ghost head = request@;
    match credentials {
        Some(credentials) => {
            let name = join(credentials.username.as_str(), ":");
            let raw = join(name.as_str(), credentials.password.as_str());
            let encoded = base64_encode(raw.as_str().as_bytes());
            proof {
                reveal_strlit(":");
                lemma_utf8_nonempty(raw@);
                lemma_line_authorizes(credentials.username@, credentials.password@);
            }
            request.append("Proxy-Authorization: Basic ");
            request.append(encoded.as_str());
            request.append("\r\n");
            assert(request@ =~= head + authorization_line(
                Some((credentials.username@, credentials.password@)),
            ));
        },
        None => {
            assert(request@ =~= head + authorization_line(None));
        },
    }
    request.append("\r\n");
    request
}

/// The four bytes that end the header of an answer.
pub open spec fn blank_line() -> Seq<u8> {
    seq![13u8, 10u8, 13u8, 10u8]
}

/// Where the header of an answer ends.
pub fn find_header_end(response: &[u8]) -> (at: Option<usize>)
    ensures
        match at {
            Some(at) => find(response@, blank_line()) == Some(at as int) && at + 4
                <= response.len(),
            None => find(response@, blank_line()) is None,
        },
{
    let mark = [13u8, 10, 13, 10];
    assert(mark@ =~= blank_line());
    let at = find_bytes(response, &mark);
    proof {
        crate::text::lemma_find_is_first(response@, blank_line());
    }
    at
}

/// Why an answer is refused; `None` where the tunnel is open.
pub open spec fn response_fault(header: Seq<u8>) -> Option<Seq<char>> {
    match from_utf8(header) {
        None => Some("http proxy CONNECT response is not valid UTF-8"@),
        Some(text) => if lines(text).len() == 0 {
            Some("http proxy CONNECT response is empty"@)
        } else {
            let line = lines(text)[0];
            let (version, rest) = next_word(line);
            let code = next_word(rest).0;
            if !begins_with(version, "HTTP/"@) {
                Some("http proxy CONNECT response has invalid status line `"@ + line + "`"@)
            } else if code != "200"@ {
                Some("http proxy CONNECT failed with status `"@ + line + "`"@)
            } else {
                None
            }
        },
    }
}

pub fn validate_connect_response(header: &[u8]) -> (done: Result<(), OutboundError>)
    ensures
        match response_fault(header@) {
            None => done is Ok,
            Some(message) => done matches Err(error) && error.message@ == message,
        },
{
    let text = match text_from_utf8(header) {
        Ok(text) => text,
        Err(_) => return Err(OutboundError::new("http proxy CONNECT response is not valid UTF-8")),
    };
    let chars = chars_of(text.as_str());
    let all = lines_chars(chars.as_slice());
    if all.len() == 0 {
        return Err(OutboundError::new("http proxy CONNECT response is empty"));
    }
    let line = &all[0];
    assert(views(all@)[0] == line@);
    let (version, rest) = next_word_chars(line.as_slice());
    let (code, _) = next_word_chars(rest.as_slice());
    let line_text = string_of(line.as_slice());
    let http = chars_of("HTTP/");
    if !begins_with_chars(version.as_slice(), http.as_slice()) {
        let head = join(
            "http proxy CONNECT response has invalid status line `",
            line_text.as_str(),
        );
        return Err(OutboundError { message: join(head.as_str(), "`") });
    }
    let accepted = chars_of("200");
    if !same_chars(code.as_slice(), accepted.as_slice()) {
        let head = join("http proxy CONNECT failed with status `", line_text.as_str());
        return Err(OutboundError { message: join(head.as_str(), "`") });
    }
    Ok(())
}

/// The proxy's answer, as its bytes come.
pub struct ConnectResponse {
    pub bytes: Vec<u8>,
}

/// What follows some bytes of the answer.
pub enum ConnectStep {
    /// More bytes are to be read.
    More,
    /// The tunnel is open.
    Open(HttpTunnelStream),
}

/// What comes of the answer once `response` was read, and `last` bytes of it
/// just now.
pub open spec fn connect_fault(response: Seq<u8>, last: nat) -> Option<Seq<char>> {
    if last == 0 {
        Some("http proxy closed before CONNECT response completed"@)
    } else {
        match find(response, blank_line()) {
            Some(end) => response_fault(response.take(end)),
            None => if response.len() >= MAX_CONNECT_RESPONSE_BYTES {
                Some("http proxy CONNECT response exceeded header limit"@)
            } else {
                None
            },
        }
    }
}

/// What comes of an answer, over plain values.
pub enum AnswerModel {
    /// More is to be read.
    More,
    /// The tunnel is open, and these bytes came through it.
    Open(Seq<u8>),
    Refused(Seq<char>),
}

/// What came of an answer.
pub open spec fn step_view(step: Result<ConnectStep, OutboundError>) -> AnswerModel {
    match step {
        Ok(ConnectStep::More) => AnswerModel::More,
        Ok(ConnectStep::Open(tunnel)) => AnswerModel::Open(tunnel.pending@),
        Err(error) => AnswerModel::Refused(error.message@),
    }
}

/// What comes of the answer once `response` was read, and `last` bytes of it just
/// now.
pub open spec fn answered(response: Seq<u8>, last: nat) -> AnswerModel {
    match connect_fault(response, last) {
        Some(message) => AnswerModel::Refused(message),
        None => match find(response, blank_line()) {
            Some(end) => AnswerModel::Open(response.skip(end + 4)),
            None => AnswerModel::More,
        },
    }
}

impl ConnectResponse {
    pub fn new() -> (response: ConnectResponse)
        ensures
            response.bytes@.len() == 0,
    {
        ConnectResponse { bytes: Vec::new() }
    }

    /// The proxy sent some bytes; none means that it closed the connection.
    pub fn received(self, bytes: &[u8]) -> (step: (ConnectResponse, Result<
        ConnectStep,
        OutboundError,
    >))
        ensures
            ({
                let response = self.bytes@ + bytes@;
                match connect_fault(response, bytes@.len()) {
                    Some(message) => step.1 matches Err(error) && error.message@ == message,
                    None => match find(response, blank_line()) {
                        Some(end) => step.1 matches Ok(ConnectStep::Open(tunnel))
                            && tunnel.pending@ == response.skip(end + 4),
                        None => step.1 matches Ok(ConnectStep::More) && step.0.bytes@ == response,
                    },
                }
            }),
            step_view(step.1) == answered(self.bytes@ + bytes@, bytes@.len()),
    {
        let mut response = self;
        if bytes.len() == 0 {
            return (
                response,
                Err(OutboundError::new("http proxy closed before CONNECT response completed")),
            );
        }
        push_all(&mut response.bytes, bytes);
        match find_header_end(response.bytes.as_slice()) {
            Some(end) => {
                let header = copy_range(response.bytes.as_slice(), 0, end);
                assert(header@ =~= response.bytes@.take(end as int));
                match validate_connect_response(header.as_slice()) {
                    Ok(()) => {
                        let pending = copy_range(
                            response.bytes.as_slice(),
                            end + 4,
                            response.bytes.len(),
                        );
                        assert(pending@ =~= response.bytes@.skip(end + 4));
                        (response, Ok(ConnectStep::Open(HttpTunnelStream { pending })))
                    },
                    Err(error) => (response, Err(error)),
                }
            },
            None => {
                if response.bytes.len() >= MAX_CONNECT_RESPONSE_BYTES {
                    return (
                        response,
                        Err(
                            OutboundError::new("http proxy CONNECT response exceeded header limit"),
                        ),
                    );
                }
                (response, Ok(ConnectStep::More))
            },
        }
    }
}

/// An open tunnel: what came with the answer is read first.
pub struct HttpTunnelStream {
    pub pending: Vec<u8>,
}

impl HttpTunnelStream {
    /// The bytes that a read of up to `room` bytes gives; `None` where the
    /// connection itself is to be read.
    pub fn poll_read(&mut self, room: usize) -> (bytes: Option<Vec<u8>>)
        ensures
            match bytes {
                Some(bytes) => {
                    &&& old(self).pending@.len() > 0 && room > 0
                    &&& bytes@ + final(self).pending@ == old(self).pending@
                    &&& bytes@.len() == (if room < old(self).pending@.len() {
                        room as nat
                    } else {
                        old(self).pending@.len()
                    })
                },
                None => (old(self).pending@.len() == 0 || room == 0) && final(self).pending@
                    == old(self).pending@,
            },
    {
        if self.pending.len() == 0 || room == 0 {
            return None;
        }
        let count: usize = if room < self.pending.len() {
            room
        } else {
            self.pending.len()
        };
        let bytes = copy_range(self.pending.as_slice(), 0, count);
        let rest = copy_range(self.pending.as_slice(), count, self.pending.len());
        self.pending = rest;
        assert(bytes@ + self.pending@ =~= old(self).pending@);
        Some(bytes)
    }
}

impl HttpProxyOutbound {
    pub fn new(proxy: Endpoint) -> (outbound: HttpProxyOutbound)
        ensures
            outbound.proxy == proxy,
            outbound.credentials is None,
    {
        HttpProxyOutbound { proxy, credentials: None }
    }

    pub fn with_credentials(self, credentials: HttpProxyCredentials) -> (outbound:
        HttpProxyOutbound)
        ensures
            outbound.proxy == self.proxy,
            outbound.credentials == Some(credentials),
    {
        HttpProxyOutbound { proxy: self.proxy, credentials: Some(credentials) }
    }

    /// Datagrams do not go through an HTTP proxy.
    pub fn open_datagram(&self) -> (error: OutboundError)
        ensures
            error.message@ == "http outbound does not support UDP datagrams"@,
    {
        OutboundError::new("http outbound does not support UDP datagrams")
    }
}

/// A tunnel is open where the first line of the answer has a version of HTTP and
/// the code 200, whatever else it says; any other answer is refused.
pub proof fn law_tunnel_answer(
    version: Seq<char>,
    code: Seq<char>,
    reason: Seq<char>,
    more: Option<Seq<char>>,
)
    requires
        is_word(version),
        is_word(code),
        reason.len() == 0 || is_white(reason[0]),
        !reason.contains('\n'),
        reason.len() > 0 ==> reason.last() != '\r',
    ensures
        ({
            let line = version + seq![' '] + code + reason;
            let text = match more {
                Some(more) => line + seq!['\r', '\n'] + more,
                None => line,
            };
            response_fault(utf8(text)) is None <==> code == seq!['2', '0', '0'] && version.len()
                >= 5 && version.take(5) == seq!['H', 'T', 'T', 'P', '/']
        }),
{
    let line = version + seq![' '] + code + reason;
    let rest = seq![' '] + code + reason;
    let text = match more {
        Some(more) => line + seq!['\r', '\n'] + more,
        None => line,
    };
    assert(!line.contains('\n')) by {
        assert forall|i: int| 0 <= i < line.len() implies line[i] != '\n' by {
            if i < version.len() {
                assert(!is_white(version[i]));
            } else if i > version.len() && i <= version.len() + code.len() {
                assert(line[i] == code[i - version.len() - 1]);
                assert(!is_white(code[i - version.len() - 1]));
            } else if i > version.len() + code.len() {
                assert(line[i] == reason[i - version.len() - 1 - code.len()]);
                assert(reason.contains(reason[i - version.len() - 1 - code.len()]));
            }
        }
    }
    assert(line.last() != '\r') by {
        if reason.len() > 0 {
            assert(line.last() == reason.last());
        } else {
            assert(line.last() == code.last());
            assert(!is_white(code[code.len() - 1]));
        }
    }
    match more {
        Some(more) => law_first_line(line, more),
        None => law_first_line(line, Seq::empty()),
    }
    lemma_utf8_round_trip(text);
    assert(line =~= version + rest);
    lemma_next_word(version, rest);
    lemma_next_word(code, reason);
    reveal_strlit("200");
    reveal_strlit("HTTP/");
    assert("200"@ =~= seq!['2', '0', '0']);
    assert("HTTP/"@ =~= seq!['H', 'T', 'T', 'P', '/']);
    if version.len() >= 5 {
        assert(version.take(5) =~= version.subrange(0, 5));
    }
}

/// An answer is read until its empty line; one that ends before, or is longer
/// than 16384 bytes by then, is refused.
pub proof fn law_answer_read(response: Seq<u8>, last: nat)
    ensures
        last == 0 ==> connect_fault(response, last) is Some,
        last > 0 && find(response, seq![13u8, 10u8, 13u8, 10u8]) is None ==> (connect_fault(
            response,
            last,
        ) is Some <==> response.len() >= 16384),
        last > 0 ==> (find(response, seq![13u8, 10u8, 13u8, 10u8]) matches Some(end)
            ==> connect_fault(response, last) == response_fault(response.take(end))),
{
}

/// The request for a tunnel names its target twice, in the first line and as its
/// host, and ends with an empty line, before which a client may prove itself.
pub proof fn law_request_text(target: Seq<char>, username: Seq<char>, password: Seq<char>)
    ensures
        request_text(target, None) == "CONNECT "@ + target + " HTTP/1.1\r\nHost: "@ + target
            + "\r\nProxy-Connection: Keep-Alive\r\n\r\n"@,
        request_text(target, Some((username, password))) == "CONNECT "@ + target
            + " HTTP/1.1\r\nHost: "@ + target
            + "\r\nProxy-Connection: Keep-Alive\r\nProxy-Authorization: Basic "@ + base64_text(
            utf8(username + seq![':'] + password),
        ) + "\r\n\r\n"@,
{
    reveal_strlit(":");
    reveal_strlit("\r\n");
    reveal_strlit("\r\n\r\n");
    reveal_strlit("\r\nProxy-Connection: Keep-Alive\r\n");
    reveal_strlit("\r\nProxy-Connection: Keep-Alive\r\n\r\n");
    reveal_strlit("Proxy-Authorization: Basic ");
    reveal_strlit("\r\nProxy-Connection: Keep-Alive\r\nProxy-Authorization: Basic ");
    assert(":"@ =~= seq![':']);
    assert("\r\n\r\n"@ =~= "\r\n"@ + "\r\n"@);
    assert("\r\nProxy-Connection: Keep-Alive\r\n\r\n"@
        =~= "\r\nProxy-Connection: Keep-Alive\r\n"@ + "\r\n"@);
    assert("\r\nProxy-Connection: Keep-Alive\r\nProxy-Authorization: Basic "@
        =~= "\r\nProxy-Connection: Keep-Alive\r\n"@ + "Proxy-Authorization: Basic "@);
    assert(request_text(target, None) =~= "CONNECT "@ + target + " HTTP/1.1\r\nHost: "@ + target
        + "\r\nProxy-Connection: Keep-Alive\r\n\r\n"@);
    assert(request_text(target, Some((username, password))) =~= "CONNECT "@ + target
        + " HTTP/1.1\r\nHost: "@ + target
        + "\r\nProxy-Connection: Keep-Alive\r\nProxy-Authorization: Basic "@ + base64_text(
        utf8(username + seq![':'] + password),
    ) + "\r\n\r\n"@);
}

/// A tunnel whose answer is accepted is open once the empty line came, and what
/// came behind that belongs to the tunnel.
pub proof fn law_tunnel_begins(header: Seq<u8>, after: Seq<u8>, last: nat)
    requires
        last > 0,
        find(header + seq![13u8, 10u8, 13u8, 10u8] + after, seq![13u8, 10u8, 13u8, 10u8]) == Some(
            header.len() as int,
        ),
    ensures
        ({
            let response = header + seq![13u8, 10u8, 13u8, 10u8] + after;
            match response_fault(header) {
                None => answered(response, last) == AnswerModel::Open(after),
                Some(message) => answered(response, last) == AnswerModel::Refused(message),
            }
        }),
        answered(header, 0) is Refused,
        find(header, seq![13u8, 10u8, 13u8, 10u8]) is None && header.len() < 16384 ==> answered(
            header,
            last,
        ) is More,
{
    let response = header + seq![13u8, 10u8, 13u8, 10u8] + after;
    assert(response.take(header.len() as int) =~= header);
    assert(response.skip(header.len() as int + 4) =~= after);
}

} // verus!
