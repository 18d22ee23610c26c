//! What is learned of a flow before it is routed.
use crate::dns::reverse::{ReverseDns, ReverseModel};
use crate::inspect::protocol::{
    extractor_seen, found_in_datagram, found_in_stream, new_extractor, query_of, sniff_tcp,
    sniff_udp, FoundModel, SniffResult,
};
use crate::octets::push_all;
use crate::types::{Endpoint, Host, HostModel, IpModel, Network, ProtocolHint};
use vstd::prelude::*;

verus! {

/// How much is read before a flow is routed.
#[derive(Clone, Copy, Debug, PartialEq, Eq)]
pub struct SniffConfig {
    pub max_bytes: usize,
    pub max_datagrams: usize,
    pub timeout_millis: u64,
}

impl Default for SniffConfig {
    fn default() -> (config: SniffConfig)
        ensures
            config == (SniffConfig { max_bytes: 16384, max_datagrams: 4, timeout_millis: 300 }),
    {
        SniffConfig { max_bytes: 16 * 1024, max_datagrams: 4, timeout_millis: 300 }
    }
}

/// What is known of a flow.
#[derive(Clone, Debug)]
pub struct FlowMeta {
    pub network: Network,
    pub source: Endpoint,
    pub destination: Endpoint,
    pub domain: Option<Host>,
    pub protocol_hint: Option<ProtocolHint>,
}

/// What an optional host holds.
pub open spec fn host_view(host: Option<Host>) -> Option<HostModel> {
    match host {
        Some(host) => Some(host@),
        None => None,
    }
}

/// Whether two flows differ in no more than domain and protocol.
pub open spec fn same_flow(left: FlowMeta, right: FlowMeta) -> bool {
    left.network == right.network && left.source == right.source && left.destination
        == right.destination
}

/// Gives every flow one domain.
#[derive(Clone, Debug, PartialEq, Eq)]
pub struct StaticDomainEnricher {
    pub domain: Host,
}

impl StaticDomainEnricher {
    pub fn new(domain: Host) -> (enricher: StaticDomainEnricher)
        ensures
            enricher.domain == domain,
    {
        StaticDomainEnricher { domain }
    }

    pub fn enrich(&self, meta: &mut FlowMeta)
        ensures
            same_flow(*final(meta), *old(meta)),
            host_view(final(meta).domain) == Some(self.domain@),
            final(meta).protocol_hint == old(meta).protocol_hint,
    {
        meta.domain = Some(self.domain.duplicate());
    }
}

/// Gives every flow one protocol.
#[derive(Clone, Debug, PartialEq, Eq)]
pub struct StaticProtocolHintEnricher {
    pub hint: ProtocolHint,
}

impl StaticProtocolHintEnricher {
    pub fn new(hint: ProtocolHint) -> (enricher: StaticProtocolHintEnricher)
        ensures
            enricher.hint == hint,
    {
        StaticProtocolHintEnricher { hint }
    }

    pub fn enrich(&self, meta: &mut FlowMeta)
        ensures
            same_flow(*final(meta), *old(meta)),
            final(meta).domain == old(meta).domain,
            final(meta).protocol_hint == Some(self.hint),
    {
        meta.protocol_hint = Some(self.hint);
    }
}

/// The domain of a flow once the memory of DNS answers was asked: a domain that
/// is known stays.
pub open spec fn remembered_domain(
    meta: FlowMeta,
    reverse: ReverseDns,
    now: u64,
) -> Option<HostModel> {
    match (meta.domain, meta.destination.host) {
        (None, Host::Ip(ip)) => match reverse.domain_of(ip@, now) {
            Some(domain) => Some(HostModel::Domain(domain)),
            None => None,
        },
        _ => host_view(meta.domain),
    }
}

/// Asks the memory of DNS answers for the domain of a flow.
pub fn recall_domain(meta: &mut FlowMeta, reverse: &ReverseDns, now: u64)
    requires
        reverse.wf(),
    ensures
        same_flow(*final(meta), *old(meta)),
        final(meta).protocol_hint == old(meta).protocol_hint,
        host_view(final(meta).domain) == remembered_domain(*old(meta), *reverse, now),
{
    if meta.domain.is_none() {
        let found = match &meta.destination.host {
            Host::Ip(ip) => reverse.lookup(*ip, now),
            Host::Domain(_) => None,
        };
        if let Some(domain) = found {
            meta.domain = Some(Host::Domain(domain));
        }
    }
}

/// Takes over what was found, where it was not known before.
pub fn apply_result(
    domain: &mut Option<Host>,
    protocol_hint: &mut Option<ProtocolHint>,
    result: &SniffResult,
)
    ensures
        host_view(*final(domain)) == (if *old(domain) is Some {
            host_view(*old(domain))
        } else {
            match result@.domain {
                Some(name) => Some(HostModel::Domain(name)),
                None => None,
            }
        }),
        *final(protocol_hint) == (if *old(protocol_hint) is Some {
            *old(protocol_hint)
        } else {
            result.protocol
        }),
{
    if domain.is_none() {
        if let Some(value) = &result.domain {
            *domain = Some(Host::domain(value.as_str()));
        }
    }
    if protocol_hint.is_none() {
        *protocol_hint = result.protocol;
    }
}

/// The domain and the protocol of a flow once its first bytes were looked at.
pub open spec fn learned(meta: FlowMeta, reverse: ReverseDns, found: FoundModel, now: u64) -> (
    Option<HostModel>,
    Option<ProtocolHint>,
) {
    (
        match (remembered_domain(meta, reverse, now), found.domain) {
            (Some(domain), _) => Some(domain),
            (None, Some(name)) => Some(HostModel::Domain(name)),
            (None, None) => None,
        },
        if meta.protocol_hint is Some {
            meta.protocol_hint
        } else {
            found.protocol
        },
    )
}

/// How many answers are remembered by default.
pub const REVERSE_CAPACITY: usize = 4096;

/// What is learned of flows, and the memory of DNS answers.
pub struct ProtocolSniffer {
    pub config: SniffConfig,
    pub reverse_dns: ReverseDns,
}

impl ProtocolSniffer {
    pub fn new(config: SniffConfig) -> (sniffer: ProtocolSniffer)
        ensures
            sniffer.config == config,
            sniffer.reverse_dns.wf(),
            sniffer.reverse_dns.capacity == REVERSE_CAPACITY,
            sniffer.reverse_dns.memory() == Map::<IpModel, ReverseModel>::empty(),
    {
        ProtocolSniffer::with_reverse_dns(config, ReverseDns::new(REVERSE_CAPACITY))
    }

    pub fn with_reverse_dns(config: SniffConfig, reverse_dns: ReverseDns) -> (sniffer:
        ProtocolSniffer)
        ensures
            sniffer == (ProtocolSniffer { config, reverse_dns }),
    {
        ProtocolSniffer { config, reverse_dns }
    }

    pub fn reverse_dns(&self) -> (reverse_dns: &ReverseDns)
        ensures
            *reverse_dns == self.reverse_dns,
    {
        &self.reverse_dns
    }

    /// What is known of a flow once its first bytes were looked at: a domain and
    /// a protocol that were known stay, then what the memory of DNS answers says
    /// of its destination counts, then what the bytes say.
    pub fn enrich(&self, meta: &mut FlowMeta, result: &SniffResult, now: u64)
        requires
            self.reverse_dns.wf(),
        ensures
            same_flow(*final(meta), *old(meta)),
            host_view(final(meta).domain) == (match remembered_domain(
                *old(meta),
                self.reverse_dns,
                now,
            ) {
                Some(domain) => Some(domain),
                None => match result@.domain {
                    Some(name) => Some(HostModel::Domain(name)),
                    None => None,
                },
            }),
            final(meta).protocol_hint == (if old(meta).protocol_hint is Some {
                old(meta).protocol_hint
            } else {
                result.protocol
            }),
            (host_view(final(meta).domain), final(meta).protocol_hint) == learned(
                *old(meta),
                self.reverse_dns,
                result@,
                now,
            ),
    {
        recall_domain(meta, &self.reverse_dns, now);
        let mut domain = meta.domain.take();
        let mut protocol_hint = meta.protocol_hint.take();
        apply_result(&mut domain, &mut protocol_hint, result);
        meta.domain = domain;
        meta.protocol_hint = protocol_hint;
    }
}

impl Default for ProtocolSniffer {
    fn default() -> (sniffer: ProtocolSniffer)
        ensures
            sniffer.config == (SniffConfig {
                max_bytes: 16384,
                max_datagrams: 4,
                timeout_millis: 300,
            }),
            sniffer.reverse_dns.wf(),
            sniffer.reverse_dns.capacity == REVERSE_CAPACITY,
            sniffer.reverse_dns.memory() == Map::<IpModel, ReverseModel>::empty(),
    {
        ProtocolSniffer::new(SniffConfig::default())
    }
}

/// Looks at the first bytes of a stream as they come.
pub struct StreamSniffer {
    pub max_bytes: usize,
    pub prefix: Vec<u8>,
}

impl StreamSniffer {
    pub open spec fn wf(self) -> bool {
        self.prefix@.len() <= self.max_bytes
    }

    pub fn new(config: &SniffConfig) -> (sniffer: StreamSniffer)
        ensures
            sniffer.wf(),
            sniffer.max_bytes == config.max_bytes,
            sniffer.prefix@.len() == 0,
    {
        StreamSniffer { max_bytes: config.max_bytes, prefix: Vec::new() }
    }

    /// How much is to be read next; zero where enough was read.
    pub fn wanted(&self) -> (count: usize)
        requires
            self.wf(),
        ensures
            count == (if self.max_bytes - self.prefix@.len() < 2048 {
                self.max_bytes - self.prefix@.len()
            } else {
                2048
            }),
    {
        let left: usize = self.max_bytes - self.prefix.len();
        if left < 2048 {
            left
        } else {
            2048
        }
    }

    /// Bytes were read. They are kept, and what they say with those before
    /// them is given; where that names no protocol, more is to be read.
    pub fn received(&mut self, bytes: &[u8]) -> (found: SniffResult)
        requires
            old(self).wf(),
            old(self).prefix@.len() + bytes@.len() <= old(self).max_bytes,
        ensures
            final(self).wf(),
            final(self).max_bytes == old(self).max_bytes,
            final(self).prefix@ == old(self).prefix@ + bytes@,
            found@ == found_in_stream(old(self).prefix@ + bytes@),
    {
        push_all(&mut self.prefix, bytes);
        sniff_tcp(self.prefix.as_slice())
    }

    /// No more is read: what the bytes say.
    pub fn finish(&self) -> (found: SniffResult)
        ensures
            found@ == found_in_stream(self.prefix@),
    {
        sniff_tcp(self.prefix.as_slice())
    }
}

/// Looks at the first datagrams of a flow as they come.
pub struct DatagramSniffer {
    pub max_bytes: usize,
    pub max_datagrams: usize,
    pub total: usize,
    pub replay: Vec<(Vec<u8>, Endpoint)>,
    pub quic: clienthello::Extractor,
}

impl DatagramSniffer {
    pub open spec fn wf(self) -> bool {
        self.total <= self.max_bytes
    }

    pub fn new(config: &SniffConfig) -> (sniffer: DatagramSniffer)
        ensures
            sniffer.wf(),
            sniffer.max_bytes == config.max_bytes,
            sniffer.max_datagrams == config.max_datagrams,
            sniffer.total == 0,
            sniffer.replay@.len() == 0,
            extractor_seen(sniffer.quic) == Seq::<Seq<u8>>::empty(),
    {
        DatagramSniffer {
            max_bytes: config.max_bytes,
            max_datagrams: config.max_datagrams,
            total: 0,
            replay: Vec::new(),
            quic: new_extractor(),
        }
    }

    /// The room for the next datagram; zero where enough was received.
    pub fn wanted(&self) -> (room: usize)
        requires
            self.wf(),
        ensures
            room == (if self.replay@.len() >= self.max_datagrams {
                0
            } else if self.max_bytes - self.total < 65_535 {
                self.max_bytes - self.total
            } else {
                65_535
            }),
    {
        if self.replay.len() >= self.max_datagrams {
            return 0;
        }
        let left: usize = self.max_bytes - self.total;
        if left < 65_535 {
            left
        } else {
            65_535
        }
    }

    /// A datagram was received. It is kept, and what it says is given; where
    /// that names no protocol, another is to be received.
    pub fn received(&mut self, packet: Vec<u8>, endpoint: Endpoint) -> (found: SniffResult)
        requires
            old(self).wf(),
            old(self).total + packet@.len() <= old(self).max_bytes,
        ensures
            final(self).wf(),
            final(self).max_bytes == old(self).max_bytes,
            final(self).max_datagrams == old(self).max_datagrams,
            final(self).total == old(self).total + packet@.len(),
            final(self).replay@ == old(self).replay@.push((packet, endpoint)),
            found@ == found_in_datagram(extractor_seen(old(self).quic), packet@),
            extractor_seen(final(self).quic) == (if query_of(packet@) is Some {
                extractor_seen(old(self).quic)
            } else {
                extractor_seen(old(self).quic).push(packet@)
            }),
    {
        self.total = self.total + packet.len();
        let found = sniff_udp(packet.as_slice(), &mut self.quic);
        self.replay.push((packet, endpoint));
        found
    }
}

/// What the platform knows of a flow: a process of type `P`, the interface and
/// the wireless network, and a kind of network of type `T`.
#[derive(Clone, Debug, PartialEq, Eq)]
pub struct PlatformMeta<P, T> {
    pub process: Option<P>,
    pub interface: Option<String>,
    pub wifi_ssid: Option<String>,
    pub wifi_bssid: Option<String>,
    pub network_type: Option<T>,
}

/// What the platform says of a network.
#[derive(Clone, Debug, PartialEq, Eq)]
pub struct NetworkInfo<T> {
    pub interface: Option<String>,
    pub wifi_ssid: Option<String>,
    pub wifi_bssid: Option<String>,
    pub network_type: Option<T>,
}

impl<P, T> PlatformMeta<P, T> {
    /// Takes over what the lookups gave. An interface that is known stays.
    pub fn enrich(&mut self, process: Option<P>, network: Option<NetworkInfo<T>>)
        ensures
            final(self).process == (if process is Some {
                process
            } else {
                old(self).process
            }),
            match network {
                Some(info) => {
                    &&& final(self).interface == (if old(self).interface is Some {
                        old(self).interface
                    } else {
                        info.interface
                    })
                    &&& final(self).wifi_ssid == info.wifi_ssid
                    &&& final(self).wifi_bssid == info.wifi_bssid
                    &&& final(self).network_type == info.network_type
                },
                None => {
                    &&& final(self).interface == old(self).interface
                    &&& final(self).wifi_ssid == old(self).wifi_ssid
                    &&& final(self).wifi_bssid == old(self).wifi_bssid
                    &&& final(self).network_type == old(self).network_type
                },
            },
    {
        if process.is_some() {
            self.process = process;
        }
        if let Some(info) = network {
            if self.interface.is_none() {
                self.interface = info.interface;
            }
            self.wifi_ssid = info.wifi_ssid;
            self.wifi_bssid = info.wifi_bssid;
            self.network_type = info.network_type;
        }
    }
}

/// A flow to an address whose domain is known is to that domain. A domain that
/// the flow has already stays, and a flow to a name gets none from memory.
pub proof fn law_remembered_domain(meta: FlowMeta, reverse: ReverseDns, now: u64)
    ensures
        meta.domain matches Some(domain) ==> remembered_domain(meta, reverse, now) == Some(domain@),
        meta.domain is None && meta.destination.host is Domain ==> remembered_domain(
            meta,
            reverse,
            now,
        ) is None,
        meta.domain is None ==> (meta.destination.host matches Host::Ip(ip) ==> match reverse.domain_of(
            ip@,
            now,
        ) {
            Some(domain) => remembered_domain(meta, reverse, now) == Some(
                HostModel::Domain(domain),
            ),
            None => remembered_domain(meta, reverse, now) is None,
        }),
{
}

/// What a flow knows of itself stays. A domain that it lacks comes from memory,
/// by the address that it goes to, before it comes from its first bytes; a
/// protocol that it lacks comes from those.
pub proof fn law_learned(meta: FlowMeta, reverse: ReverseDns, found: FoundModel, now: u64)
    ensures
        ({
            let (domain, protocol) = learned(meta, reverse, found, now);
            &&& meta.domain matches Some(known) ==> domain == Some(known@)
            &&& meta.domain is None ==> match (meta.destination.host, found.domain) {
                (Host::Ip(ip), name) => match reverse.domain_of(ip@, now) {
                    Some(told) => domain == Some(HostModel::Domain(told)),
                    None => match name {
                        Some(name) => domain == Some(HostModel::Domain(name)),
                        None => domain is None,
                    },
                },
                (Host::Domain(_), Some(name)) => domain == Some(HostModel::Domain(name)),
                (Host::Domain(_), None) => domain is None,
            }
            &&& meta.protocol_hint is Some ==> protocol == meta.protocol_hint
            &&& meta.protocol_hint is None ==> protocol == found.protocol
        }),
        REVERSE_CAPACITY == 4096,
{
}

} // verus!
