//! NaiveProxy: tunnels over HTTP/2 with padding.
use crate::crypto::{base64_encode, base64_text};
use crate::text::{join, utf8};
use crate::transport::h2_tunnel::{header_views, H2TunnelOptions};
use crate::types::OutboundError;
use vstd::prelude::*;

verus! {

/// A client of a NaiveProxy.
pub struct NaiveOutbound {
    pub options: H2TunnelOptions,
}

/// The value by which a client proves itself.
pub open spec fn basic_token(username: Seq<char>, password: Seq<char>) -> Seq<char> {
    "Basic "@ + base64_text(utf8(username + ":"@ + password))
}

impl NaiveOutbound {
    pub fn new(username: &str, password: &str, headers: Vec<(String, String)>) -> (outbound:
        NaiveOutbound)
        ensures
            outbound.options.negotiate_naive_padding,
            header_views(outbound.options.headers@) == header_views(headers@).push(
                ("proxy-authorization"@, basic_token(username@, password@)),
            ),
    {
        let name = join(username, ":");
        let raw = join(name.as_str(), password);
        let token = base64_encode(raw.as_str().as_bytes());
        let value = join("Basic ", token.as_str());
        let ghost before = headers@;
        let mut headers = headers;
        headers.push((String::from("proxy-authorization"), value));
        assert(header_views(headers@) =~= header_views(before).push(
            ("proxy-authorization"@, basic_token(username@, password@)),
        ));
        NaiveOutbound { options: H2TunnelOptions { headers, negotiate_naive_padding: true } }
    }

    /// Datagrams do not go through a NaiveProxy.
    pub fn open_datagram(&self) -> (error: OutboundError)
        ensures
            error.message@ == "NaiveProxy HTTP/2 CONNECT does not carry UDP datagrams"@,
    {
        OutboundError::new("NaiveProxy HTTP/2 CONNECT does not carry UDP datagrams")
    }
}

/// The value by which a client proves itself is one that a proxy with the same
/// name and password accepts, where base64 gives back what it was given.
pub proof fn law_token_accepted(username: Seq<char>, password: Seq<char>)
    requires
        crate::crypto::base64_bytes(base64_text(utf8(username + ":"@ + password))) == Ok::<
            Seq<u8>,
            Seq<char>,
        >(utf8(username + ":"@ + password)),
        crate::text::is_word(base64_text(utf8(username + ":"@ + password))),
    ensures
        crate::inbound::http::authorizes(
            "proxy-authorization"@ + seq![':', ' '] + basic_token(username, password),
            username,
            password,
        ),
{
    let token = base64_text(utf8(username + ":"@ + password));
    reveal_strlit("proxy-authorization");
    reveal_strlit("Basic ");
    reveal_strlit(":");
    assert(":"@ =~= seq![':']);
    assert(crate::text::lower("proxy-authorization"@) =~= "proxy-authorization"@);
    crate::inbound::http_laws::law_authorizes("proxy-authorization"@, token, username, password);
    assert("proxy-authorization"@ + seq![':', ' '] + basic_token(username, password)
        =~= "proxy-authorization"@ + seq![':', ' ', 'B', 'a', 's', 'i', 'c', ' '] + token);
}

} // verus!
