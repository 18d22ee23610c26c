//! What the first bytes of a flow say.
use crate::dns::wire::{decode_answers, decode_message, message_answers, message_parts};
use crate::octets::{be16, copy_range, read_be16};
use crate::text::{
    chars_of, find, from_utf8, is_white, lemma_find_is_first, lemma_split_once,
    lemma_utf8_round_trip, lower, lower_chars, same_ignoring_case, split_once, split_once_chars,
    string_of, sub_chars, text_from_utf8, trim, trim_chars, trim_end_of, trim_end_of_chars,
    trim_start, utf8,
};
use crate::types::{IpAddress, IpModel, ProtocolHint};
use vstd::prelude::*;

verus! {

/// The identifier and the name of a DNS query.
#[derive(Clone, Debug)]
pub struct DnsQueryMeta {
    pub id: u16,
    pub name: String,
}

/// What was found.
#[derive(Clone, Debug)]
pub struct SniffResult {
    pub protocol: Option<ProtocolHint>,
    pub domain: Option<String>,
    pub dns_query: Option<DnsQueryMeta>,
}

/// What was found, over plain values.
#[verifier::ext_equal]
pub struct FoundModel {
    pub protocol: Option<ProtocolHint>,
    pub domain: Option<Seq<char>>,
    pub dns_query: Option<(u16, Seq<char>)>,
}

/// What a query's identifier and name are.
pub open spec fn meta_view(meta: Option<DnsQueryMeta>) -> Option<(u16, Seq<char>)> {
    match meta {
        Some(meta) => Some((meta.id, meta.name@)),
        None => None,
    }
}

/// What an optional text holds.
pub open spec fn text_view(text: Option<String>) -> Option<Seq<char>> {
    match text {
        Some(text) => Some(text@),
        None => None,
    }
}

impl SniffResult {
    pub open spec fn view(&self) -> FoundModel {
        FoundModel {
            protocol: self.protocol,
            domain: text_view(self.domain),
            dns_query: meta_view(self.dns_query),
        }
    }
}

/// Nothing was found.
pub open spec fn nothing_found() -> FoundModel {
    FoundModel { protocol: None, domain: None, dns_query: None }
}

impl Default for SniffResult {
    fn default() -> (found: SniffResult)
        ensures
            found@ == nothing_found(),
    {
        SniffResult { protocol: None, domain: None, dns_query: None }
    }
}

/// The server name in a TLS ClientHello; `None` where the bytes hold no
/// complete ClientHello with one.
pub uninterp spec fn hello_server_name(data: Seq<u8>) -> Option<Seq<char>>;

/// `rustls::server::Acceptor`, fed with one read of the bytes: whether a
/// ClientHello is complete and which server name it holds are a function of the
/// bytes.
#[verifier::external_body]
fn read_server_name(data: &[u8]) -> (name: Option<String>)
    ensures
        text_view(name) == hello_server_name(data@),
{
    let mut acceptor = rustls::server::Acceptor::default();
    let mut data = data;
    acceptor.read_tls(&mut data).ok()?;
    let accepted = acceptor.accept().ok()??;
    accepted.client_hello().server_name().map(|name| name.to_string())
}

/// How many headers a request may have.
pub const MAX_HEADERS: usize = 64;

/// The headers of an HTTP request; `None` where the bytes hold no complete
/// request with headers for which there is room.
pub uninterp spec fn request_headers(data: Seq<u8>, room: usize) -> Option<
    Seq<(Seq<char>, Seq<u8>)>,
>;

/// What headers hold.
pub open spec fn header_list(headers: Seq<(String, Vec<u8>)>) -> Seq<(Seq<char>, Seq<u8>)> {
    headers.map_values(|header: (String, Vec<u8>)| (header.0@, header.1@))
}

/// `httparse::Request::parse` with room for some headers: whether the request
/// is complete, and the names and values of its headers in order, are a function
/// of the bytes and the room.
#[verifier::external_body]
fn read_headers(data: &[u8], room: usize) -> (headers: Option<Vec<(String, Vec<u8>)>>)
    requires
        room <= MAX_HEADERS,
    ensures
        headers is Some <==> request_headers(data@, room) is Some,
        headers matches Some(list) ==> request_headers(data@, room) == Some(header_list(list@)),
{
    let mut room = vec![httparse::EMPTY_HEADER; room];
    let mut request = httparse::Request::new(&mut room);
    match request.parse(data) {
        Ok(httparse::Status::Complete(_)) => {},
        Ok(httparse::Status::Partial) => return None,
        Err(_) => return None,
    }
    Some(request.headers.iter().map(|h| (h.name.to_string(), h.value.to_vec())).collect())
}

/// The host in an authority: in brackets or before a colon, without dots at its
/// end, in lower case.
pub open spec fn authority_host(value: Seq<char>) -> Option<Seq<char>> {
    let host = if value.len() > 0 && value[0] == '[' {
        match split_once(value.skip(1), seq![']']) {
            Some((host, _)) => Some(host),
            None => None,
        }
    } else {
        match split_once(value, seq![':']) {
            Some((host, _)) => Some(host),
            None => Some(value),
        }
    };
    match host {
        Some(host) => {
            let name = lower(trim_end_of(host, '.'));
            if name.len() > 0 {
                Some(name)
            } else {
                None
            }
        },
        None => None,
    }
}

/// The host in an authority.
pub fn normalize_authority(value: &str) -> (host: Option<String>)
    ensures
        text_view(host) == authority_host(value@),
{
    let chars = chars_of(value);
    let host: Vec<char> = if chars.len() > 0 && chars[0] == '[' {
        let rest = sub_chars(chars.as_slice(), 1, chars.len());
        assert(rest@ =~= value@.skip(1));
        let mark = vec![']'];
        assert(mark@ =~= seq![']']);
        match split_once_chars(rest.as_slice(), mark.as_slice()) {
            Some((host, _)) => host,
            None => return None,
        }
    } else {
        let mark = vec![':'];
        assert(mark@ =~= seq![':']);
        match split_once_chars(chars.as_slice(), mark.as_slice()) {
            Some((host, _)) => host,
            None => chars,
        }
    };
    let bare = trim_end_of_chars(host.as_slice(), '.');
    let name = lower_chars(bare.as_slice());
    if name.len() == 0 {
        None
    } else {
        Some(string_of(name.as_slice()))
    }
}

/// The value of the first header with a name, whatever its case.
pub open spec fn header_value(headers: Seq<(Seq<char>, Seq<u8>)>, name: Seq<char>) -> Option<
    Seq<u8>,
>
    decreases headers.len(),
{
    if headers.len() == 0 {
        None
    } else if lower(headers[0].0) == lower(name) {
        Some(headers[0].1)
    } else {
        header_value(headers.skip(1), name)
    }
}

fn find_header(headers: &Vec<(String, Vec<u8>)>, name: &str) -> (at: Option<usize>)
    ensures
        match at {
            Some(at) => at < headers@.len() && header_value(header_list(headers@), name@) == Some(
                headers@[at as int].1@,
            ),
            None => header_value(header_list(headers@), name@) is None,
        },
{
    let wanted = chars_of(name);
    let ghost all = header_list(headers@);
    assert(all.skip(0) =~= all);
    for i in 0..headers.len()
        invariant
            wanted@ == name@,
            all == header_list(headers@),
            header_value(all.skip(i as int), name@) == header_value(all, name@),
    {
        assert(all.skip(i as int)[0] == all[i as int]);
        assert(all.skip(i as int).skip(1) =~= all.skip(i + 1));
        let found = chars_of(headers[i].0.as_str());
        if same_ignoring_case(found.as_slice(), wanted.as_slice()) {
            return Some(i);
        }
    }
    assert(all.skip(headers@.len() as int).len() == 0);
    None
}

/// The host that headers name.
pub open spec fn host_in(headers: Seq<(Seq<char>, Seq<u8>)>) -> Option<Seq<char>> {
    match header_value(headers, "host"@) {
        None => None,
        Some(value) => match from_utf8(value) {
            None => None,
            Some(text) => authority_host(trim(text)),
        },
    }
}

/// The host that the headers of a request name.
pub fn host_of_headers(headers: &Vec<(String, Vec<u8>)>) -> (host: Option<String>)
    ensures
        text_view(host) == host_in(header_list(headers@)),
{
    match find_header(headers, "host") {
        None => None,
        Some(at) => match text_from_utf8(headers[at].1.as_slice()) {
            Err(_) => None,
            Ok(text) => {
                let chars = chars_of(text.as_str());
                let trimmed = trim_chars(chars.as_slice());
                normalize_authority(string_of(trimmed.as_slice()).as_str())
            },
        },
    }
}

/// The host that an HTTP request names.
pub open spec fn http_host_of(data: Seq<u8>) -> Option<Seq<char>> {
    match request_headers(data, MAX_HEADERS) {
        Some(headers) => host_in(headers),
        None => None,
    }
}

fn http_host(data: &[u8]) -> (host: Option<String>)
    ensures
        text_view(host) == http_host_of(data@),
{
    match read_headers(data, MAX_HEADERS) {
        Some(headers) => host_of_headers(&headers),
        None => None,
    }
}

/// The server name in a TLS ClientHello, in lower case.
pub open spec fn sni_of(data: Seq<u8>) -> Option<Seq<char>> {
    match hello_server_name(data) {
        Some(name) => Some(lower(name)),
        None => None,
    }
}

pub fn tls_sni(data: &[u8]) -> (name: Option<String>)
    ensures
        text_view(name) == sni_of(data@),
{
    match read_server_name(data) {
        Some(name) => {
            let chars = chars_of(name.as_str());
            let name = lower_chars(chars.as_slice());
            Some(string_of(name.as_slice()))
        },
        None => None,
    }
}

/// The query in a DNS message.
pub open spec fn query_of(packet: Seq<u8>) -> Option<(u16, Seq<char>)> {
    match message_parts(packet) {
        Err(_) => None,
        Ok(message) => if message.is_response || message.questions.len() == 0 {
            None
        } else {
            Some((message.id, lower(trim_end_of(message.questions[0].name, '.'))))
        },
    }
}

pub fn dns_query(packet: &[u8]) -> (query: Option<DnsQueryMeta>)
    ensures
        meta_view(query) == query_of(packet@),
{
    match decode_message(packet) {
        Err(_) => None,
        Ok(message) => {
            if message.is_response || message.questions.len() == 0 {
                return None;
            }
            assert(message@.questions[0] == message.questions@[0]@);
            let chars = chars_of(message.questions[0].name.as_str());
            let bare = trim_end_of_chars(chars.as_slice(), '.');
            let name = lower_chars(bare.as_slice());
            Some(DnsQueryMeta { id: message.id, name: string_of(name.as_slice()) })
        },
    }
}

/// The addresses among answers, in order.
pub open spec fn with_address(answers: Seq<(Option<IpModel>, u32)>) -> Seq<(IpModel, u32)>
    decreases answers.len(),
{
    if answers.len() == 0 {
        Seq::empty()
    } else {
        let head = with_address(answers.drop_last());
        match answers.last().0 {
            Some(ip) => head.push((ip, answers.last().1)),
            None => head,
        }
    }
}

/// The addresses in a response to the query with an identifier.
pub open spec fn response_addresses(packet: Seq<u8>, query_id: u16) -> Seq<(IpModel, u32)> {
    match (message_parts(packet), message_answers(packet)) {
        (Ok(message), Some(answers)) => if message.is_response && message.id == query_id {
            with_address(answers)
        } else {
            Seq::empty()
        },
        _ => Seq::empty(),
    }
}

pub fn dns_response_addresses(packet: &[u8], query_id: u16) -> (addresses: Vec<(IpAddress, u32)>)
    ensures
        crate::dns::reverse::pair_views(addresses@) == response_addresses(packet@, query_id),
{
    let mut addresses: Vec<(IpAddress, u32)> = Vec::new();
    assert(crate::dns::reverse::pair_views(addresses@) =~= Seq::empty());
    match decode_message(packet) {
        Err(_) => return addresses,
        Ok(message) => {
            if !message.is_response || message.id != query_id {
                return addresses;
            }
        },
    }
    let answers = match decode_answers(packet) {
        Some(answers) => answers,
        None => return addresses,
    };
    let ghost all = crate::dns::wire::answer_list(answers@);
    for i in 0..answers.len()
        invariant
            all == crate::dns::wire::answer_list(answers@),
            crate::dns::reverse::pair_views(addresses@) =~= with_address(all.take(i as int)),
    {
        assert(all.take(i + 1).drop_last() =~= all.take(i as int));
        assert(all.take(i + 1).last() == crate::dns::wire::answer_view(answers@[i as int]));
        let ghost before = addresses@;
        if let (Some(ip), ttl) = answers[i] {
            addresses.push((ip, ttl));
            assert(crate::dns::reverse::pair_views(addresses@)
                =~= crate::dns::reverse::pair_views(before).push((ip@, ttl)));
        }
    }
    assert(all.take(answers@.len() as int) =~= all);
    addresses
}

/// What the first bytes of a stream say.
pub open spec fn found_in_stream(data: Seq<u8>) -> FoundModel {
    if sni_of(data) is Some {
        FoundModel { protocol: Some(ProtocolHint::Tls), domain: sni_of(data), dns_query: None }
    } else if http_host_of(data) is Some {
        FoundModel {
            protocol: Some(ProtocolHint::Http),
            domain: http_host_of(data),
            dns_query: None,
        }
    } else if data.len() >= 2 && be16(data[0], data[1]) <= data.len() - 2 && query_of(
        data.skip(2),
    ) is Some {
        FoundModel {
            protocol: Some(ProtocolHint::Dns),
            domain: None,
            dns_query: query_of(data.skip(2)),
        }
    } else {
        nothing_found()
    }
}

pub fn sniff_tcp(data: &[u8]) -> (found: SniffResult)
    ensures
        found@ == found_in_stream(data@),
{
    if let Some(domain) = tls_sni(data) {
        return SniffResult {
            protocol: Some(ProtocolHint::Tls),
            domain: Some(domain),
            dns_query: None,
        };
    }
    if let Some(domain) = http_host(data) {
        return SniffResult {
            protocol: Some(ProtocolHint::Http),
            domain: Some(domain),
            dns_query: None,
        };
    }
    if data.len() >= 2 {
        let declared: usize = read_be16(data, 0) as usize;
        let packet = copy_range(data, 2, data.len());
        assert(packet@ =~= data@.skip(2));
        if let Some(query) = dns_query(packet.as_slice()) {
            if declared <= data.len() - 2 {
                return SniffResult {
                    protocol: Some(ProtocolHint::Dns),
                    domain: None,
                    dns_query: Some(query),
                };
            }
        }
    }
    SniffResult::default()
}

/// The type of outside crates that collects the ClientHello of QUIC.
#[verifier::external_type_specification]
#[verifier::external_body]
pub struct ExExtractor(clienthello::Extractor);

/// The datagrams that an extractor was given.
pub uninterp spec fn extractor_seen(extractor: clienthello::Extractor) -> Seq<Seq<u8>>;

/// The server name that the last of some datagrams gives.
pub uninterp spec fn quic_server_name(datagrams: Seq<Seq<u8>>) -> Option<Seq<char>>;

/// `clienthello::Extractor::new`: an extractor that was given nothing.
#[verifier::external_body]
pub(crate) fn new_extractor() -> (extractor: clienthello::Extractor)
    ensures
        extractor_seen(extractor) == Seq::<Seq<u8>>::empty(),
{
    clienthello::Extractor::new()
}

/// `clienthello::Extractor::push`: the datagram is one more that the extractor
/// was given, and the server name that comes of it, if any, is a function of
/// all of them.
#[verifier::external_body]
fn push_datagram(extractor: &mut clienthello::Extractor, datagram: &[u8]) -> (name: Option<String>)
    ensures
        extractor_seen(*final(extractor)) == extractor_seen(*old(extractor)).push(datagram@),
        text_view(name) == quic_server_name(extractor_seen(*final(extractor))),
{
    match extractor.push(datagram) {
        Ok(clienthello::PushOutcome::Sni(name)) => Some(name),
        Ok(clienthello::PushOutcome::NeedMore) => None,
        Err(_) => None,
    }
}

/// What a datagram says after others.
pub open spec fn found_in_datagram(before: Seq<Seq<u8>>, data: Seq<u8>) -> FoundModel {
    if query_of(data) is Some {
        FoundModel { protocol: Some(ProtocolHint::Dns), domain: None, dns_query: query_of(data) }
    } else if quic_server_name(before.push(data)) is Some {
        FoundModel {
            protocol: Some(ProtocolHint::Quic),
            domain: quic_server_name(before.push(data)),
            dns_query: None,
        }
    } else {
        nothing_found()
    }
}

pub fn sniff_udp(data: &[u8], quic: &mut clienthello::Extractor) -> (found: SniffResult)
    ensures
        found@ == found_in_datagram(extractor_seen(*old(quic)), data@),
        extractor_seen(*final(quic)) == (if query_of(data@) is Some {
            extractor_seen(*old(quic))
        } else {
            extractor_seen(*old(quic)).push(data@)
        }),
{
    if let Some(query) = dns_query(data) {
        return SniffResult {
            protocol: Some(ProtocolHint::Dns),
            domain: None,
            dns_query: Some(query),
        };
    }
    match push_datagram(quic, data) {
        Some(domain) => SniffResult {
            protocol: Some(ProtocolHint::Quic),
            domain: Some(domain),
            dns_query: None,
        },
        None => SniffResult::default(),
    }
}

/// A DNS query over a stream, its length in front of it, is found with its
/// identifier and its name, unless the bytes are a ClientHello or an HTTP
/// request; so is one that others follow.
pub proof fn law_framed_query(packet: Seq<u8>, length: int, data: Seq<u8>, found: (u16, Seq<char>))
    requires
        0 <= length <= packet.len(),
        length <= 65535,
        data == seq![(length / 256) as u8, (length % 256) as u8] + packet,
        query_of(packet) == Some(found),
        sni_of(data) is None,
        http_host_of(data) is None,
    ensures
        found_in_stream(data).protocol == Some(ProtocolHint::Dns),
        found_in_stream(data).dns_query == Some(found),
        found_in_stream(data).domain is None,
{
    assert(data.skip(2) =~= packet);
    assert(data[0] as int * 256 + data[1] as int == length);
}

/// While less has come than the length in front announces, no query is found
/// in a stream.
pub proof fn law_cut_query(data: Seq<u8>)
    requires
        data.len() < 2 || data[0] as int * 256 + data[1] as int > data.len() - 2,
    ensures
        found_in_stream(data).dns_query is None,
        found_in_stream(data).protocol != Some(ProtocolHint::Dns),
{
}

/// A ClientHello with a server name is found as TLS, by that name with its
/// letters in lower case, whatever else the bytes could be.
pub proof fn law_hello_found(data: Seq<u8>, name: Seq<char>)
    requires
        hello_server_name(data) == Some(name),
    ensures
        found_in_stream(data).protocol == Some(ProtocolHint::Tls),
        found_in_stream(data).dns_query is None,
        found_in_stream(data).domain matches Some(domain) && domain.len() == name.len() && forall|
            i: int,
        |
            0 <= i < name.len() ==> #[trigger] domain[i] == (if 'A' <= name[i] && name[i] <= 'Z' {
                (name[i] as u8 + 32) as u8 as char
            } else {
                name[i]
            }),
{
}

/// A request that is no ClientHello and has a header named `host`, in whatever
/// case, is found as HTTP, by what its first such header says before a colon,
/// without white space around it and without dots at its end.
pub proof fn law_request_found(
    data: Seq<u8>,
    headers: Seq<(Seq<char>, Seq<u8>)>,
    at: int,
    host: Seq<char>,
    dots: nat,
    port: Option<Seq<char>>,
)
    requires
        hello_server_name(data) is None,
        request_headers(data, 64) == Some(headers),
        0 <= at < headers.len(),
        lower(headers[at].0) == seq!['h', 'o', 's', 't'],
        forall|i: int|
            0 <= i < at ==> lower((#[trigger] headers[i]).0) != seq!['h', 'o', 's', 't'],
        is_host(host),
        headers[at].1 == utf8(
            seq![' '] + host + Seq::new(dots, |i: int| '.') + (match port {
                Some(port) => seq![':'] + port,
                None => Seq::empty(),
            }),
        ),
        port matches Some(port) ==> is_host(port),
    ensures
        found_in_stream(data) == (FoundModel {
            protocol: Some(ProtocolHint::Http),
            domain: Some(lower(host)),
            dns_query: None,
        }),
{
    reveal_strlit("host");
    assert("host"@ =~= seq!['h', 'o', 's', 't']);
    assert(lower("host"@) =~= "host"@);
    lemma_first_header(headers, "host"@, at);
    let marks = Seq::new(dots, |i: int| '.');
    let text = host + marks + (match port {
        Some(port) => seq![':'] + port,
        None => Seq::empty(),
    });
    let spaced = seq![' '] + host + marks + (match port {
        Some(port) => seq![':'] + port,
        None => Seq::empty(),
    });
    assert(spaced =~= seq![' '] + text);
    lemma_utf8_round_trip(spaced);
    assert(trim_start(spaced) == text) by {
        assert(spaced.skip(1) =~= text);
        assert(text[0] == host[0]);
        assert(trim_start(text) == text);
    }
    assert(!is_white(text.last())) by {
        if port is Some {
            assert(text.last() == port->0.last());
        } else if dots > 0 {
            assert(text.last() == '.');
        } else {
            assert(text.last() == host.last());
        }
    }
    assert(trim(spaced) == text);
    let bare = host + marks;
    assert(!bare.contains(':')) by {
        assert forall|i: int| 0 <= i < bare.len() implies bare[i] != ':' by {
            if i < host.len() {
                assert(bare[i] == host[i]);
            }
        }
    }
    match port {
        Some(port) => {
            assert(text =~= bare + seq![':'] + port);
            lemma_split_once(bare, ':', port);
        },
        None => {
            assert(text =~= bare);
            lemma_find_is_first(text, seq![':']);
            if let Some(place) = find(text, seq![':']) {
                assert(text.subrange(place, place + 1)[0] == text[place]);
            }
        },
    }
    lemma_dots_dropped(host, dots);
}

/// Whether a text can be a host or a port: it is not empty, and no white space,
/// colon, bracket or dot at the end makes it read otherwise.
pub open spec fn is_host(text: Seq<char>) -> bool {
    &&& text.len() > 0
    &&& text[0] != '['
    &&& text.last() != '.'
    &&& forall|i: int| 0 <= i < text.len() ==> !is_white(#[trigger] text[i]) && text[i] != ':'
}

proof fn lemma_first_header(headers: Seq<(Seq<char>, Seq<u8>)>, name: Seq<char>, at: int)
    requires
        0 <= at < headers.len(),
        lower(headers[at].0) == lower(name),
        forall|i: int| 0 <= i < at ==> lower((#[trigger] headers[i]).0) != lower(name),
    ensures
        header_value(headers, name) == Some(headers[at].1),
    decreases at,
{
    if at > 0 {
        let rest = headers.skip(1);
        assert forall|i: int| 0 <= i < at - 1 implies lower((#[trigger] rest[i]).0) != lower(
            name,
        ) by {
            assert(rest[i] == headers[i + 1]);
        }
        lemma_first_header(rest, name, at - 1);
    }
}

proof fn lemma_dots_dropped(host: Seq<char>, dots: nat)
    requires
        host.len() > 0,
        host.last() != '.',
    ensures
        trim_end_of(host + Seq::new(dots, |i: int| '.'), '.') == host,
    decreases dots,
{
    let text = host + Seq::new(dots, |i: int| '.');
    if dots == 0 {
        assert(text =~= host);
    } else {
        lemma_dots_dropped(host, (dots - 1) as nat);
        assert(text.drop_last() =~= host + Seq::new((dots - 1) as nat, |i: int| '.'));
    }
}

/// What a DNS message asks: one that is no response and has a question asks for
/// the first question's name, without the dots of the root and in lower case,
/// under the message's identifier. Responses, and messages without questions,
/// ask nothing.
pub proof fn law_query_of_message(
    packet: Seq<u8>,
    message: crate::dns::wire::RequestModel,
    name: Seq<char>,
    dots: nat,
)
    requires
        message_parts(packet) == Ok::<crate::dns::wire::RequestModel, Seq<char>>(message),
        message.questions.len() > 0 ==> message.questions[0].name == name + Seq::new(
            dots,
            |i: int| '.',
        ),
        name.len() > 0,
        name.last() != '.',
    ensures
        !message.is_response && message.questions.len() > 0 ==> query_of(packet) == Some(
            (message.id, lower(name)),
        ),
        message.is_response || message.questions.len() == 0 ==> query_of(packet) is None,
{
    lemma_dots_dropped(name, dots);
}

/// A query in a datagram is found at once, and the datagram is not kept for
/// QUIC; any other datagram adds to what came before.
pub proof fn law_datagram_found(before: Seq<Seq<u8>>, data: Seq<u8>)
    ensures
        query_of(data) matches Some(query) ==> found_in_datagram(before, data) == (FoundModel {
            protocol: Some(ProtocolHint::Dns),
            domain: None,
            dns_query: Some(query),
        }),
        query_of(data) is None ==> {
            let found = found_in_datagram(before, data);
            &&& found.dns_query is None
            &&& found.domain == quic_server_name(before.push(data))
            &&& found.protocol == Some(ProtocolHint::Quic) <==> found.domain is Some
            &&& found.protocol is Some <==> found.domain is Some
        },
{
}

/// The host of an authority in brackets is what they hold, in lower case,
/// whatever follows them.
pub proof fn law_bracketed_host(host: Seq<char>, after: Seq<char>)
    requires
        host.len() > 0,
        host.last() != '.',
        !host.contains(']'),
    ensures
        authority_host(seq!['['] + host + seq![']'] + after) == Some(lower(host)),
{
    let value = seq!['['] + host + seq![']'] + after;
    assert(value.skip(1) =~= host + seq![']'] + after);
    lemma_split_once(host, ']', after);
    assert(host + Seq::new(0, |i: int| '.') =~= host);
    lemma_dots_dropped(host, 0);
}

/// The addresses of a response to a query are those of its answers that hold
/// one, with their times to live and in their order; other messages give none.
pub proof fn law_response_addresses(
    packet: Seq<u8>,
    message: crate::dns::wire::RequestModel,
    answers: Seq<(Option<IpModel>, u32)>,
    at: int,
    query_id: u16,
)
    requires
        message_parts(packet) == Ok::<crate::dns::wire::RequestModel, Seq<char>>(message),
        message_answers(packet) == Some(answers),
        0 <= at < answers.len(),
    ensures
        !message.is_response || message.id != query_id ==> response_addresses(
            packet,
            query_id,
        ).len() == 0,
        message.is_response && message.id == query_id ==> response_addresses(packet, query_id)
            == with_address(answers),
        with_address(answers) == with_address(answers.take(at)) + (match answers[at].0 {
            Some(ip) => seq![(ip, answers[at].1)],
            None => Seq::empty(),
        }) + with_address(answers.skip(at + 1)),
        with_address(Seq::empty()).len() == 0,
{
    lemma_addresses_joined(answers.take(at), answers.skip(at));
    assert(answers.take(at) + answers.skip(at) =~= answers);
    let one = seq![answers[at]];
    lemma_addresses_joined(one, answers.skip(at + 1));
    assert(one + answers.skip(at + 1) =~= answers.skip(at));
    assert(one.drop_last() =~= Seq::empty());
    assert(one.last() == answers[at]);
    assert(with_address(one.drop_last()) =~= Seq::empty());
    assert(with_address(one) =~= match answers[at].0 {
        Some(ip) => seq![(ip, answers[at].1)],
        None => Seq::empty(),
    });
    assert(with_address(answers) =~= with_address(answers.take(at)) + (match answers[at].0 {
        Some(ip) => seq![(ip, answers[at].1)],
        None => Seq::empty(),
    }) + with_address(answers.skip(at + 1)));
}

proof fn lemma_addresses_joined(
    left: Seq<(Option<IpModel>, u32)>,
    right: Seq<(Option<IpModel>, u32)>,
)
    ensures
        with_address(left + right) == with_address(left) + with_address(right),
    decreases right.len(),
{
    if right.len() == 0 {
        assert(left + right =~= left);
        assert(with_address(left) + with_address(right) =~= with_address(left));
    } else {
        lemma_addresses_joined(left, right.drop_last());
        assert((left + right).drop_last() =~= left + right.drop_last());
        assert((left + right).last() == right.last());
        assert(with_address(left + right) =~= with_address(left) + with_address(right));
    }
}

/// Bytes that are no ClientHello with a name, no request with a host and no query
/// behind its length say nothing.
pub proof fn law_nothing_found(data: Seq<u8>)
    requires
        hello_server_name(data) is None,
        http_host_of(data) is None,
        data.len() >= 2 ==> query_of(data.skip(2)) is None,
    ensures
        found_in_stream(data).protocol is None,
        found_in_stream(data).domain is None,
        found_in_stream(data).dns_query is None,
{
}

/// A request without a header named `host`, or whose first such header is no
/// text, names no host; neither do bytes that are no request.
pub proof fn law_no_host(data: Seq<u8>, headers: Seq<(Seq<char>, Seq<u8>)>, at: int)
    ensures
        request_headers(data, 64) is None ==> http_host_of(data) is None,
        request_headers(data, 64) == Some(headers) && (forall|i: int|
            0 <= i < headers.len() ==> lower((#[trigger] headers[i]).0) != seq![
                'h',
                'o',
                's',
                't',
            ]) ==> http_host_of(data) is None,
        request_headers(data, 64) == Some(headers) && 0 <= at < headers.len() && lower(
            headers[at].0,
        ) == seq!['h', 'o', 's', 't'] && from_utf8(headers[at].1) is None && (forall|i: int|
            0 <= i < at ==> lower((#[trigger] headers[i]).0) != seq!['h', 'o', 's', 't'])
            ==> http_host_of(data) is None,
{
    reveal_strlit("host");
    assert("host"@ =~= seq!['h', 'o', 's', 't']);
    assert(lower("host"@) =~= "host"@);
    if forall|i: int|
        0 <= i < headers.len() ==> lower((#[trigger] headers[i]).0) != seq!['h', 'o', 's', 't'] {
        lemma_no_header(headers, "host"@);
    }
    if 0 <= at < headers.len() && lower(headers[at].0) == seq!['h', 'o', 's', 't'] && (forall|
        i: int,
    |
        0 <= i < at ==> lower((#[trigger] headers[i]).0) != seq!['h', 'o', 's', 't']) {
        lemma_first_header(headers, "host"@, at);
    }
}

proof fn lemma_no_header(headers: Seq<(Seq<char>, Seq<u8>)>, name: Seq<char>)
    requires
        forall|i: int| 0 <= i < headers.len() ==> lower((#[trigger] headers[i]).0) != lower(name),
    ensures
        header_value(headers, name) is None,
    decreases headers.len(),
{
    if headers.len() > 0 {
        let rest = headers.skip(1);
        assert(lower(headers[0].0) != lower(name));
        assert forall|i: int| 0 <= i < rest.len() implies lower((#[trigger] rest[i]).0) != lower(
            name,
        ) by {
            assert(rest[i] == headers[i + 1]);
        }
        lemma_no_header(rest, name);
    }
}

} // verus!
