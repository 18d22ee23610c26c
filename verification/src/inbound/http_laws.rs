//! What holds of proxy requests, whoever writes them.
use crate::crypto::base64_bytes;
use crate::inbound::http::{
    absolute_target, answer_to, authority_len, authority_of, authority_or, authorizes, forwarded,
    header_name, http_flow, read_on, request_of, scheme_port, HttpProxyRequest, ReadModel,
    RequestModel, AUTHENTICATE_REPLY, AUTHENTICATION_REQUIRED, BAD_REQUEST_REPLY,
    ESTABLISHED_REPLY, MAX_HEADER_BYTES,
};
use crate::outbound::http::{authority, blank_line};
use crate::text::{
    begins_with, decimal, find, from_utf8, is_white, is_word, lemma_decimal_round_trip, lemma_decimal_word,
    lemma_find_is_first, lemma_next_word, lemma_rsplit_piece, lemma_split_piece,
    lemma_utf8_round_trip, lower, parse_number, rsplit_once, split, split_once, trim, trim_start, utf8,
};
use crate::types::{EndpointModel, HostModel, IpAddress, IpModel, Network, ProtocolHint};
use vstd::prelude::*;

verus! {

proof fn lemma_no_mark(text: Seq<char>, mark: char)
    requires
        !text.contains(mark),
    ensures
        rsplit_once(text, mark) is None,
    decreases text.len(),
{
    if text.len() > 0 {
        assert(text.contains(text.last()));
        assert forall|i: int| 0 <= i < text.drop_last().len() implies text.drop_last()[i]
            != mark by {
            assert(text.contains(text[i]));
        }
        lemma_no_mark(text.drop_last(), mark);
    }
}

proof fn lemma_authority_len(authority: Seq<char>, path: Seq<char>)
    requires
        forall|i: int|
            0 <= i < authority.len() ==> #[trigger] authority[i] != '/' && authority[i] != '?',
        path.len() == 0 || path[0] == '/' || path[0] == '?',
    ensures
        authority_len(authority + path) == authority.len(),
    decreases authority.len(),
{
    let text = authority + path;
    if authority.len() == 0 {
        assert(text =~= path);
    } else {
        let rest = authority.skip(1);
        assert(text[0] == authority[0]);
        assert(text.skip(1) =~= rest + path);
        assert forall|i: int| 0 <= i < rest.len() implies #[trigger] rest[i] != '/' && rest[i]
            != '?' by {
            assert(rest[i] == authority[i + 1]);
        }
        lemma_authority_len(rest, path);
    }
}

/// Whether a text can be the host of a whole address: it is not empty, and no
/// character in it ends it.
pub open spec fn plain_host(host: Seq<char>) -> bool {
    &&& host.len() > 0
    &&& host[0] != '['
    &&& forall|i: int|
        0 <= i < host.len() ==> #[trigger] host[i] != '/' && host[i] != '?' && host[i] != ':'
}

/// A host, and its port where it is named.
pub open spec fn placed(host: Seq<char>, port: Option<u16>) -> Seq<char> {
    match port {
        Some(port) => host + seq![':'] + decimal(port as nat),
        None => host,
    }
}

proof fn lemma_placed(host: Seq<char>, port: Option<u16>, own: u16)
    requires
        plain_host(host),
    ensures
        authority_or(placed(host, port), own) == Ok::<(Seq<char>, u16), Seq<char>>(
            (
                host,
                match port {
                    Some(port) => port,
                    None => own,
                },
            ),
        ),
        placed(host, port).len() > 0,
        forall|i: int|
            0 <= i < placed(host, port).len() ==> #[trigger] placed(host, port)[i] != '/'
                && placed(host, port)[i] != '?',
{
    let place = placed(host, port);
    assert(place[0] == host[0]);
    match port {
        Some(port) => {
            let digits = decimal(port as nat);
            lemma_decimal_word(port as nat);
            lemma_decimal_round_trip(port as nat, 0xffff);
            assert forall|i: int| 0 <= i < digits.len() implies digits[i] != ':' && digits[i] != '/'
                && digits[i] != '?' by {
                assert('0' <= digits[i] && digits[i] <= '9');
            }
            assert(place =~= host.push(':') + digits);
            lemma_rsplit_piece(host, ':', digits);
            assert forall|i: int| 0 <= i < place.len() implies #[trigger] place[i] != '/'
                && place[i] != '?' by {
                if i < host.len() {
                    assert(place[i] == host[i]);
                } else if i > host.len() {
                    assert(place[i] == digits[i - host.len() - 1]);
                }
            }
        },
        None => {
            assert(!host.contains(':'));
            lemma_no_mark(host, ':');
        },
    }
}

proof fn lemma_scheme(secure: bool, rest: Seq<char>)
    ensures
        ({
            let scheme = if secure {
                "https"@
            } else {
                "http"@
            };
            &&& split_once(scheme + seq![':', '/', '/'] + rest, "://"@) == Some((scheme, rest))
            &&& scheme_port(scheme) == Some(
                if secure {
                    443u16
                } else {
                    80u16
                },
            )
        }),
{
    let scheme = if secure {
        "https"@
    } else {
        "http"@
    };
    reveal_strlit("http");
    reveal_strlit("https");
    reveal_strlit("://");
    assert("://"@ =~= seq![':', '/', '/']);
    assert("http"@ != "https"@) by {
        assert("http"@.len() == 4 && "https"@.len() == 5);
    }
    assert(!scheme.contains(':'));
    lemma_split_piece(scheme, "://"@, rest);
}

/// A whole address names its scheme, its host, its port where it is not the
/// scheme's own, which is 80 for `http` and 443 for `https`, and a path or a
/// query; what is passed on is a path.
pub proof fn law_absolute_target(secure: bool, host: Seq<char>, port: Option<u16>, path: Seq<char>)
    requires
        plain_host(host),
        path.len() == 0 || path[0] == '/' || path[0] == '?',
    ensures
        ({
            let scheme = if secure {
                "https"@
            } else {
                "http"@
            };
            let own = if secure {
                443u16
            } else {
                80u16
            };
            absolute_target(scheme + seq![':', '/', '/'] + placed(host, port) + path) == Ok::<
                (Seq<char>, u16, Seq<char>),
                Seq<char>,
            >(
                (
                    host,
                    match port {
                        Some(port) => port,
                        None => own,
                    },
                    if path.len() > 0 && path[0] == '/' {
                        path
                    } else {
                        seq!['/'] + path
                    },
                ),
            )
        }),
{
    let place = placed(host, port);
    let rest = place + path;
    let own = if secure {
        443u16
    } else {
        80u16
    };
    let scheme = if secure {
        "https"@
    } else {
        "http"@
    };
    lemma_scheme(secure, rest);
    lemma_placed(host, port, own);
    lemma_authority_len(place, path);
    assert(rest.take(place.len() as int) =~= place);
    assert(rest.skip(place.len() as int) =~= path);
    assert(scheme + seq![':', '/', '/'] + place + path =~= scheme + seq![':', '/', '/'] + rest);
    reveal_strlit("/");
    assert("/"@ =~= seq!['/']);
    if path.len() == 0 {
        assert(seq!['/'] + path =~= seq!['/']);
    }
}

/// A target of another scheme is refused, and so is one without a scheme or a
/// host.
pub proof fn law_target_refused(scheme: Seq<char>, rest: Seq<char>)
    requires
        !scheme.contains(':'),
    ensures
        scheme != "http"@ && scheme != "https"@ ==> absolute_target(
            scheme + seq![':', '/', '/'] + rest,
        ) is Err,
        absolute_target(scheme) is Err,
        rest.len() == 0 || rest[0] == '/' || rest[0] == '?' ==> absolute_target(
            scheme + seq![':', '/', '/'] + rest,
        ) is Err,
{
    reveal_strlit("://");
    assert("://"@ =~= seq![':', '/', '/']);
    lemma_split_piece(scheme, "://"@, rest);
    lemma_find_is_first(scheme, "://"@);
    if let Some(at) = find(scheme, "://"@) {
        assert(scheme.subrange(at, at + 3)[0] == scheme[at]);
    }
}

/// Of the lines of a request those are passed on that are not empty and whose
/// name is not, in whatever case, `Proxy-Authorization` or `Proxy-Connection`;
/// they keep their order.
pub proof fn law_forwarded(lines: Seq<Seq<char>>, name: Seq<char>, value: Seq<char>)
    requires
        !name.contains(':'),
    ensures
        forwarded(Seq::empty()).len() == 0,
        forwarded(lines.push(Seq::empty())) == forwarded(lines),
        ({
            let line = name + seq![':'] + value;
            forwarded(lines.push(line)) == (if lower(name) == "proxy-authorization"@ || lower(name)
                == "proxy-connection"@ {
                forwarded(lines)
            } else {
                forwarded(lines) + line + seq!['\r', '\n']
            })
        }),
{
    let line = name + seq![':'] + value;
    let none = Seq::<char>::empty();
    reveal_strlit(":");
    reveal_strlit("\r\n");
    reveal_strlit("proxy-authorization");
    reveal_strlit("proxy-connection");
    assert(":"@ =~= seq![':']);
    assert("\r\n"@ =~= seq!['\r', '\n']);
    assert(lower("proxy-authorization"@) =~= "proxy-authorization"@);
    assert(lower("proxy-connection"@) =~= "proxy-connection"@);
    assert(lines.push(line).drop_last() =~= lines);
    assert(lines.push(none).drop_last() =~= lines);
    lemma_split_piece(name, ":"@, value);
    assert(header_name(line) == name);
    assert(line.len() > 0);
}

/// A client proves itself by a line named `Proxy-Authorization`, in whatever
/// case, whose value is `Basic` and the name and the password, with a colon
/// between them, in base64; nothing else proves it.
pub proof fn law_authorizes(
    name: Seq<char>,
    token: Seq<char>,
    username: Seq<char>,
    password: Seq<char>,
)
    requires
        !name.contains(':'),
        is_word(token),
    ensures
        ({
            let line = name + seq![':', ' ', 'B', 'a', 's', 'i', 'c', ' '] + token;
            authorizes(line, username, password) <==> lower(name) == "proxy-authorization"@
                && base64_bytes(token) == Ok::<Seq<u8>, Seq<char>>(
                utf8(username + seq![':'] + password),
            )
        }),
{
    let value = seq![' ', 'B', 'a', 's', 'i', 'c', ' '] + token;
    let line = name + seq![':', ' ', 'B', 'a', 's', 'i', 'c', ' '] + token;
    reveal_strlit(":");
    reveal_strlit("Basic ");
    reveal_strlit("proxy-authorization");
    assert(":"@ =~= seq![':']);
    assert(lower("proxy-authorization"@) =~= "proxy-authorization"@);
    assert(line =~= name + ":"@ + value);
    lemma_split_piece(name, ":"@, value);
    let inner = seq!['B', 'a', 's', 'i', 'c', ' '] + token;
    assert(value.skip(1) =~= inner);
    assert(inner[0] == 'B');
    assert(trim_start(value) == inner) by {
        assert(is_white(value[0]));
        assert(trim_start(inner) == inner);
    }
    assert(inner.last() == token.last());
    assert(trim(value) == inner);
    assert(inner.subrange(0, 6) =~= "Basic "@);
    assert(inner.skip(6) =~= token);
    assert(trim_start(token) == token);
    assert(trim(token) == token);
}

/// A request asks in its first line for a target by a method and a version of
/// HTTP. Where a name and a password are asked for, one of the other lines has to
/// give them. A tunnel goes to the target's host and port and begins with what
/// followed the header; any other request goes to the host of the whole address,
/// and what is passed on is the line with the path in its place, the lines that
/// are passed on, an empty line, and what followed the header.
pub proof fn law_request(
    text: Seq<char>,
    lines: Seq<Seq<char>>,
    method: Seq<char>,
    target: Seq<char>,
    version: Seq<char>,
    leftover: Seq<u8>,
    credentials: Option<(Seq<char>, Seq<char>)>,
)
    requires
        split(text, "\r\n"@) == lines,
        lines.len() > 0,
        is_word(method),
        is_word(target),
        is_word(version),
        lines[0] == method + seq![' '] + target + seq![' '] + version,
    ensures
        ({
            let asked = request_of(utf8(text), leftover, credentials);
            let proved = credentials matches Some((username, password)) ==> exists|i: int|
                1 <= i < lines.len() && #[trigger] authorizes(lines[i], username, password);
            if !begins_with(version, "HTTP/"@) || !proved {
                asked is Err
            } else if method == "CONNECT"@ {
                match authority_of(target) {
                    Ok((host, port)) => asked == Ok::<RequestModel, Seq<char>>(
                        RequestModel { host, port, is_connect: true, prefix: leftover },
                    ),
                    Err(_) => asked is Err,
                }
            } else {
                match absolute_target(target) {
                    Ok((host, port, path)) => asked == Ok::<RequestModel, Seq<char>>(
                        RequestModel {
                            host,
                            port,
                            is_connect: false,
                            prefix: utf8(
                                method + seq![' '] + path + seq![' '] + version + seq!['\r', '\n']
                                    + forwarded(lines.skip(1)) + seq!['\r', '\n'],
                            ) + leftover,
                        },
                    ),
                    Err(_) => asked is Err,
                }
            }
        }),
{
    lemma_utf8_round_trip(text);
    reveal_strlit(" ");
    reveal_strlit("\r\n");
    assert(" "@ =~= seq![' ']);
    assert("\r\n"@ =~= seq!['\r', '\n']);
    let after_method = seq![' '] + target + seq![' '] + version;
    let after_target = seq![' '] + version;
    assert(lines[0] =~= method + after_method);
    lemma_next_word(method, after_method);
    assert(after_method =~= seq![' '] + target + after_target);
    lemma_next_word(target, after_target);
    assert(after_target =~= seq![' '] + version + Seq::empty());
    lemma_next_word(version, Seq::empty());
}

/// A target of a tunnel is a host and a port with a colon between them, the host
/// in brackets where it holds colons itself.
pub proof fn law_authority(host: Seq<char>, port: u16)
    requires
        host.len() > 0,
        host[0] != '[',
        !host.contains(']'),
    ensures
        authority_of(host + seq![':'] + decimal(port as nat)) == Ok::<(Seq<char>, u16), Seq<char>>(
            (host, port),
        ),
        authority_of(seq!['['] + host + seq![']', ':'] + decimal(port as nat)) == Ok::<
            (Seq<char>, u16),
            Seq<char>,
        >((host, port)),
        !host.contains(':') ==> authority_of(host) is Err,
        !host.contains(':') ==> authority_or(host, port) == Ok::<(Seq<char>, u16), Seq<char>>(
            (host, port),
        ),
        forall|text: Seq<char>, octets: Seq<u8>| #[trigger]
            authority(HostModel::Ip(IpModel::V6(octets)), text, port) == seq!['['] + text + seq![
                ']',
                ':',
            ] + decimal(port as nat),
        forall|text: Seq<char>, name: Seq<char>| #[trigger]
            authority(HostModel::Domain(name), text, port) == text + seq![':'] + decimal(
                port as nat,
            ),
        forall|text: Seq<char>, octets: Seq<u8>| #[trigger]
            authority(HostModel::Ip(IpModel::V4(octets)), text, port) == text + seq![':']
                + decimal(port as nat),
{
    let digits = decimal(port as nat);
    reveal_strlit("[");
    reveal_strlit("]:");
    reveal_strlit(":");
    assert("["@ =~= seq!['[']);
    assert("]:"@ =~= seq![']', ':']);
    assert(":"@ =~= seq![':']);
    lemma_decimal_round_trip(port as nat, 0xffff);
    lemma_decimal_word(port as nat);
    assert forall|i: int| 0 <= i < digits.len() implies digits[i] != ':' by {
        assert('0' <= digits[i] && digits[i] <= '9');
    }
    let plain = host + seq![':'] + digits;
    assert(plain =~= host.push(':') + digits);
    assert(plain[0] == host[0]);
    lemma_rsplit_piece(host, ':', digits);
    let bracketed = seq!['['] + host + seq![']', ':'] + digits;
    assert(bracketed.skip(1) =~= host + "]:"@ + digits);
    lemma_split_piece(host, "]:"@, digits);
    if !host.contains(':') {
        lemma_no_mark(host, ':');
    }
}

/// A request goes to the address that its host writes, where it writes one, and
/// else to its host by name, at its port.
pub proof fn law_target(request: HttpProxyRequest, ip: IpAddress)
    ensures
        request.target_of(Some(ip)).host == HostModel::Ip(ip@),
        request.target_of(None).host == HostModel::Domain(request.host@),
        request.target_of(Some(ip)).port == request.port,
        request.target_of(None).port == request.port,
{
}

/// A header that is no text is refused, and so is a target whose port is no
/// number up to 65535.
pub proof fn law_request_refused(
    header: Seq<u8>,
    leftover: Seq<u8>,
    credentials: Option<(Seq<char>, Seq<char>)>,
    host: Seq<char>,
    port: Seq<char>,
    own: u16,
)
    requires
        host.len() > 0,
        host[0] != '[',
        !port.contains(':'),
        parse_number(port, 65535) is None,
    ensures
        from_utf8(header) is None ==> request_of(header, leftover, credentials) is Err,
        authority_of(host + seq![':'] + port) is Err,
        authority_or(host + seq![':'] + port, own) is Err,
{
    let text = host + seq![':'] + port;
    assert(text =~= host.push(':') + port);
    assert(text[0] == host[0]);
    lemma_rsplit_piece(host, ':', port);
}

/// A flow goes from the client to the target of its request over TCP, names its
/// host as its domain, and is known to be HTTP.
pub proof fn law_flow(id: u64, inbound: u64, peer: EndpointModel, target: EndpointModel)
    ensures
        ({
            let flow = http_flow(id, inbound, peer, target);
            &&& flow.id == id && flow.inbound == inbound && flow.interface is None
            &&& flow.network == Network::Tcp
            &&& flow.source == peer && flow.destination == target
            &&& flow.domain == Some(target.host)
            &&& flow.protocol_hint == Some(ProtocolHint::Http)
        }),
{
}

/// A header ends with an empty line, and until it came, but for no more than 8192
/// bytes, more is read; what follows it belongs to what was asked for. A client
/// that closes before is refused.
pub proof fn law_header_read(
    header: Seq<u8>,
    leftover: Seq<u8>,
    part: Seq<u8>,
    credentials: Option<(Seq<char>, Seq<char>)>,
)
    requires
        find(header + seq![13u8, 10u8, 13u8, 10u8] + leftover, seq![13u8, 10u8, 13u8, 10u8])
            == Some(header.len() as int),
        find(part, seq![13u8, 10u8, 13u8, 10u8]) is None,
    ensures
        read_on(header + seq![13u8, 10u8, 13u8, 10u8] + leftover, false, credentials) == (
        match request_of(header, leftover, credentials) {
            Ok(request) => ReadModel::Asks(request),
            Err(message) => ReadModel::Refused(message),
        }),
        part.len() < 8192 ==> read_on(part, false, credentials) is More,
        part.len() >= 8192 ==> read_on(part, false, credentials) is Refused,
        read_on(part, true, credentials) is Refused,
{
    let bytes = header + seq![13u8, 10u8, 13u8, 10u8] + leftover;
    assert(bytes.take(header.len() as int) =~= header);
    assert(bytes.skip(header.len() as int + 4) =~= leftover);
}

/// A client that asks for a tunnel is told that it is there, and one that lacks
/// credentials is asked for them; any other that is refused is told that its
/// request is bad, and any other that is not is answered by its target.
pub proof fn law_answered(message: Seq<char>)
    ensures
        answer_to(Ok(true)) == Some("HTTP/1.1 200 Connection Established\r\n\r\n"@),
        answer_to(Ok(false)) is None,
        answer_to(Err("HTTP proxy authentication required"@)) == Some(
            "HTTP/1.1 407 Proxy Authentication Required\r\nProxy-Authenticate: Basic realm=\"RustBox\"\r\n\r\n"@,
        ),
        message != "HTTP proxy authentication required"@ ==> answer_to(Err(message)) == Some(
            "HTTP/1.1 400 Bad Request\r\n\r\n"@,
        ),
{
}

/// An address in brackets is a host as well where a port may be left out, and a
/// line without a colon is passed on whole.
pub proof fn law_bracketed_target(host: Seq<char>, port: u16, own: u16, lines: Seq<Seq<char>>)
    requires
        !host.contains(']'),
        host.len() > 0,
        !host.contains(':') ==> lower(host) != "proxy-authorization"@ && lower(host)
            != "proxy-connection"@,
    ensures
        authority_or(seq!['['] + host + seq![']'], own) == Ok::<(Seq<char>, u16), Seq<char>>(
            (host, own),
        ),
        authority_or(seq!['['] + host + seq![']', ':'] + decimal(port as nat), own) == Ok::<
            (Seq<char>, u16),
            Seq<char>,
        >((host, port)),
        !host.contains(':') ==> forwarded(lines.push(host)) == forwarded(lines) + host + seq![
            '\r',
            '\n',
        ],
{
    let digits = decimal(port as nat);
    reveal_strlit("]");
    reveal_strlit(":");
    reveal_strlit("\r\n");
    reveal_strlit("proxy-authorization");
    reveal_strlit("proxy-connection");
    assert("]"@ =~= seq![']']);
    assert(":"@ =~= seq![':']);
    assert("\r\n"@ =~= seq!['\r', '\n']);
    assert(lower("proxy-authorization"@) =~= "proxy-authorization"@);
    assert(lower("proxy-connection"@) =~= "proxy-connection"@);
    let bare = seq!['['] + host + seq![']'];
    let none = Seq::<char>::empty();
    assert(bare.skip(1) =~= host + "]"@ + none);
    lemma_split_piece(host, "]"@, none);
    assert(bare.skip(1).skip(host.len() as int + 1) =~= none);
    assert(bare.skip(1).take(host.len() as int) =~= host);
    let text = seq!['['] + host + seq![']', ':'] + digits;
    let tail = seq![':'] + digits;
    assert(text.skip(1) =~= host + "]"@ + tail);
    lemma_split_piece(host, "]"@, tail);
    assert(text.skip(1).skip(host.len() as int + 1) =~= tail);
    assert(text.skip(1).take(host.len() as int) =~= host);
    assert(tail.skip(1) =~= digits);
    lemma_decimal_round_trip(port as nat, 0xffff);
    assert(lines.push(host).drop_last() =~= lines);
    if !host.contains(':') {
        lemma_find_is_first(host, ":"@);
        if let Some(at) = find(host, ":"@) {
            assert(host.subrange(at, at + 1)[0] == host[at]);
        }
        assert(header_name(host) == host);
    }
}

/// The answers to a client, the end of a header, and how long one may be.
pub proof fn law_answers()
    ensures
        ESTABLISHED_REPLY@ == "HTTP/1.1 200 Connection Established\r\n\r\n"@,
        BAD_REQUEST_REPLY@ == "HTTP/1.1 400 Bad Request\r\n\r\n"@,
        AUTHENTICATE_REPLY@
            == "HTTP/1.1 407 Proxy Authentication Required\r\nProxy-Authenticate: Basic realm=\"RustBox\"\r\n\r\n"@,
        AUTHENTICATION_REQUIRED@ == "HTTP proxy authentication required"@,
        blank_line() == seq![13u8, 10u8, 13u8, 10u8],
        MAX_HEADER_BYTES == 8192,
{
}

} // verus!
