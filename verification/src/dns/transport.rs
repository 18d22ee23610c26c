//! How a server is reached and what its records answer.
use crate::dns::model::{
    answer_views, record_views, DnsAnswer, DnsError, DnsQuery, DnsRecord, DnsResponse,
    DnsServerConfig, DnsServerProtocol, QueryModel, RecordModel,
};
use crate::outbound::tls_name::name_view;
use crate::text::join;
use crate::types::{Host, HostModel, IpAddress};
use vstd::prelude::*;

verus! {

/// A server, and whether its sockets are supplied from outside.
#[derive(Clone, Debug)]
pub struct HickoryTransport {
    pub server: DnsServerConfig,
    pub injected: bool,
}

/// Whether a protocol checks a certificate.
pub open spec fn encrypted(protocol: DnsServerProtocol) -> bool {
    protocol == DnsServerProtocol::Tls || protocol == DnsServerProtocol::Https || protocol
        == DnsServerProtocol::Quic
}

/// Why a server is refused; `None` where it is not.
pub open spec fn server_fault(server: DnsServerConfig) -> Option<Seq<char>> {
    if encrypted(server.protocol) && !(server.endpoint.host is Domain) {
        Some(
            "encrypted DNS server `"@ + server.id@
                + "` needs a domain endpoint for TLS verification"@,
        )
    } else {
        None
    }
}

/// Where the server's address comes from.
pub enum ServerAddress {
    /// The supplied sockets know it.
    Unspecified,
    /// It is configured.
    Literal(IpAddress),
    /// It is looked up for a domain.
    Lookup(String),
}

/// The same over plain values.
pub enum ServerAddressModel {
    Unspecified,
    Literal(IpAddress),
    Lookup(Seq<char>),
}

impl ServerAddress {
    pub open spec fn view(&self) -> ServerAddressModel {
        match *self {
            ServerAddress::Unspecified => ServerAddressModel::Unspecified,
            ServerAddress::Literal(ip) => ServerAddressModel::Literal(ip),
            ServerAddress::Lookup(domain) => ServerAddressModel::Lookup(domain@),
        }
    }
}

/// What a resolver for one server is built from.
pub struct DialPlan {
    pub address: ServerAddress,
    pub port: u16,
    pub protocol: DnsServerProtocol,
    pub tls_dns_name: Option<String>,
    pub http_endpoint: Option<String>,
    pub injected: bool,
}

/// The same over plain values.
pub struct DialModel {
    pub address: ServerAddressModel,
    pub port: u16,
    pub protocol: DnsServerProtocol,
    pub tls_dns_name: Option<Seq<char>>,
    pub http_endpoint: Option<Seq<char>>,
    pub injected: bool,
}

impl DialPlan {
    pub open spec fn view(&self) -> DialModel {
        DialModel {
            address: self.address@,
            port: self.port,
            protocol: self.protocol,
            tls_dns_name: name_view(self.tls_dns_name),
            http_endpoint: name_view(self.http_endpoint),
            injected: self.injected,
        }
    }
}

/// How a server is reached, or why it cannot be.
pub open spec fn dial_plan(server: DnsServerConfig, injected: bool) -> Result<
    DialModel,
    Seq<char>,
> {
    if server.outbound is Some && !injected {
        Err("DNS server `"@ + server.id@ + "` has no bound outbound socket provider"@)
    } else if injected && server.protocol == DnsServerProtocol::Quic {
        Err("DNS over QUIC cannot use a stream/datagram detour"@)
    } else {
        Ok(
            DialModel {
                address: match server.endpoint.host {
                    Host::Ip(ip) => ServerAddressModel::Literal(ip),
                    Host::Domain(domain) => if injected {
                        ServerAddressModel::Unspecified
                    } else {
                        ServerAddressModel::Lookup(domain@)
                    },
                },
                port: server.endpoint.port,
                protocol: server.protocol,
                tls_dns_name: match server.endpoint.host {
                    Host::Ip(_) => None,
                    Host::Domain(domain) => Some(domain@),
                },
                http_endpoint: if server.protocol == DnsServerProtocol::Https {
                    Some("/dns-query"@)
                } else {
                    None
                },
                injected,
            },
        )
    }
}

/// What is asked of a server for a query.
pub open spec fn question_of(query: QueryModel) -> (Seq<char>, u16) {
    (query.name + "."@, query.record_type.code_of())
}

impl HickoryTransport {
    pub fn new(server: DnsServerConfig) -> (made: Result<HickoryTransport, DnsError>)
        ensures
            match server_fault(server) {
                None => made matches Ok(transport) && transport.server == server
                    && !transport.injected,
                Some(message) => made matches Err(error) && error.message@ == message,
            },
    {
        let encrypted = match server.protocol {
            DnsServerProtocol::Tls => true,
            DnsServerProtocol::Https => true,
            DnsServerProtocol::Quic => true,
            _ => false,
        };
        let named = match &server.endpoint.host {
            Host::Domain(_) => true,
            Host::Ip(_) => false,
        };
        if encrypted && !named {
            let head = join("encrypted DNS server `", server.id.as_str());
            return Err(
                DnsError {
                    message: join(
                        head.as_str(),
                        "` needs a domain endpoint for TLS verification",
                    ),
                },
            );
        }
        Ok(HickoryTransport { server, injected: false })
    }

    /// The same server, reached by sockets that are supplied.
    pub fn with_socket_provider(self) -> (transport: HickoryTransport)
        ensures
            transport.server == self.server,
            transport.injected,
    {
        HickoryTransport { server: self.server, injected: true }
    }

    /// How the server is reached.
    pub fn build(&self) -> (plan: Result<DialPlan, DnsError>)
        ensures
            match dial_plan(self.server, self.injected) {
                Ok(model) => plan matches Ok(plan) && plan@ == model,
                Err(message) => plan matches Err(error) && error.message@ == message,
            },
    {
        if self.server.outbound.is_some() && !self.injected {
            let head = join("DNS server `", self.server.id.as_str());
            return Err(
                DnsError {
                    message: join(head.as_str(), "` has no bound outbound socket provider"),
                },
            );
        }
        if self.injected && self.server.protocol == DnsServerProtocol::Quic {
            return Err(DnsError::new("DNS over QUIC cannot use a stream/datagram detour"));
        }
        let (address, tls_dns_name) = match &self.server.endpoint.host {
            Host::Ip(ip) => (ServerAddress::Literal(*ip), None),
            Host::Domain(domain) => {
                if self.injected {
                    (ServerAddress::Unspecified, Some(domain.clone()))
                } else {
                    (ServerAddress::Lookup(domain.clone()), Some(domain.clone()))
                }
            },
        };
        let http_endpoint = if self.server.protocol == DnsServerProtocol::Https {
            Some(String::from("/dns-query"))
        } else {
            None
        };
        Ok(
            DialPlan {
                address,
                port: self.server.endpoint.port,
                protocol: self.server.protocol,
                tls_dns_name,
                http_endpoint,
                injected: self.injected,
            },
        )
    }

    /// What is asked of the server: the rooted name and the number of the kind.
    pub fn question(query: &DnsQuery) -> (asked: (String, u16))
        ensures
            asked.0@ == query.name@ + "."@,
            asked.1 == query.record_type.code_of(),
            (asked.0@, asked.1) == question_of(query@),
    {
        (join(query.name.as_str(), "."), query.record_type.code())
    }

    /// The server could not answer.
    pub fn query_failed(&self, error: &str) -> (failure: DnsError)
        ensures
            failure.message@ == "DNS server `"@ + self.server.id@ + "` query failed: "@ + error@,
    {
        let head = join("DNS server `", self.server.id.as_str());
        let middle = join(head.as_str(), "` query failed: ");
        DnsError { message: join(middle.as_str(), error) }
    }

    /// What the lookup of the question came to: the response, or the failure of
    /// this server.
    pub fn exchange(&self, lookup: Result<Vec<DnsRecord>, String>) -> (response: Result<
        DnsResponse,
        DnsError,
    >)
        ensures
            match lookup {
                Ok(records) => response matches Ok(response) && response.records == records
                    && response@.answers == answers_in(record_views(records@)),
                Err(text) => response matches Err(failure) && failure.message@ == "DNS server `"@
                    + self.server.id@ + "` query failed: "@ + text@,
            },
    {
        match lookup {
            Ok(records) => Ok(response_of(records)),
            Err(text) => Err(self.query_failed(text.as_str())),
        }
    }
}

/// The lookup of the server's own domain failed; without `error` it gave no
/// address.
pub fn bootstrap_failed(domain: &str, error: Option<&str>) -> (failure: DnsError)
    ensures
        failure.message@ == "bootstrap lookup for `"@ + domain@ + match error {
            Some(text) => "` failed: "@ + text@,
            None => "` returned no address"@,
        },
{
    let head = join("bootstrap lookup for `", domain);
    match error {
        Some(text) => {
            let tail = join("` failed: ", text);
            DnsError { message: join(head.as_str(), tail.as_str()) }
        },
        None => DnsError { message: join(head.as_str(), "` returned no address") },
    }
}

/// The answers that records hold, in order.
pub open spec fn answers_in(records: Seq<RecordModel>) -> Seq<(HostModel, u32)>
    decreases records.len(),
{
    if records.len() == 0 {
        Seq::empty()
    } else {
        let head = answers_in(records.drop_last());
        match records.last().address {
            Some(ip) => head.push((HostModel::Ip(ip@), records.last().ttl_seconds)),
            None => head,
        }
    }
}

/// The response that a server's records make.
pub fn response_of(records: Vec<DnsRecord>) -> (response: DnsResponse)
    ensures
        response.records == records,
        response@.answers == answers_in(record_views(records@)),
{
    let mut answers: Vec<DnsAnswer> = Vec::new();
    let ghost all = record_views(records@);
    for i in 0..records.len()
        invariant
            all == record_views(records@),
            answer_views(answers@) =~= answers_in(all.take(i as int)),
    {
        assert(all.take(i + 1).drop_last() =~= all.take(i as int));
        assert(all.take(i + 1).last() == records@[i as int]@);
        let ghost before = answers@;
        if let Some(ip) = records[i].address {
            answers.push(
                DnsAnswer { host: Host::Ip(ip), ttl_seconds: records[i].ttl_seconds },
            );
            assert(answer_views(answers@) =~= answer_views(before).push(
                (HostModel::Ip(ip@), records@[i as int].ttl_seconds),
            ));
        }
    }
    assert(all.take(records@.len() as int) =~= all);
    DnsResponse { answers, records }
}

/// A server that is spoken to in the clear may have an address or a name; one
/// whose certificate is checked has to have a name.
pub proof fn law_server_accepted(server: DnsServerConfig)
    ensures
        server.endpoint.host is Domain ==> server_fault(server) is None,
        server.endpoint.host is Ip ==> (server_fault(server) is None <==> server.protocol
            == DnsServerProtocol::Udp || server.protocol == DnsServerProtocol::Tcp),
{
}

/// How a server is reached: at its port and by its protocol, with the path of
/// DNS over HTTPS for that protocol alone. One with an address is reached there;
/// one with a name is looked up, unless supplied sockets know it, and its
/// certificate is checked for that name.
pub proof fn law_dial_plan(server: DnsServerConfig, injected: bool)
    ensures
        dial_plan(server, injected) is Err <==> (server.outbound is Some && !injected) || (injected
            && server.protocol == DnsServerProtocol::Quic),
        dial_plan(server, injected) matches Ok(plan) ==> {
            &&& plan.port == server.endpoint.port
            &&& plan.protocol == server.protocol
            &&& plan.injected == injected
            &&& plan.http_endpoint is Some <==> server.protocol == DnsServerProtocol::Https
            &&& plan.http_endpoint matches Some(path) ==> path == "/dns-query"@
            &&& match server.endpoint.host {
                Host::Ip(ip) => plan.address == ServerAddressModel::Literal(ip)
                    && plan.tls_dns_name is None,
                Host::Domain(name) => plan.tls_dns_name == Some(name@) && (if injected {
                    plan.address is Unspecified
                } else {
                    plan.address == ServerAddressModel::Lookup(name@)
                }),
            }
        },
{
}

/// Records answer by the addresses that they hold, with their times to live and
/// in their order; other records answer nothing.
pub proof fn law_answers(records: Seq<RecordModel>, last: RecordModel)
    ensures
        answers_in(Seq::empty()).len() == 0,
        answers_in(records.push(last)) == (match last.address {
            Some(ip) => answers_in(records).push((HostModel::Ip(ip@), last.ttl_seconds)),
            None => answers_in(records),
        }),
{
    assert(records.push(last).drop_last() =~= records);
}

/// A server is asked for the whole name, with the dot of the root, and for the
/// kind that the query asks for.
pub proof fn law_question(query: QueryModel)
    ensures
        question_of(query).0.len() == query.name.len() + 1,
        question_of(query).0.take(query.name.len() as int) == query.name,
        question_of(query).0.last() == '.',
        question_of(query).1 == query.record_type.code_of(),
{
    reveal_strlit(".");
    assert(question_of(query).0.take(query.name.len() as int) =~= query.name);
}

} // verus!
