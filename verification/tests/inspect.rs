use rustbox::dns::reverse::ReverseDns;
use rustbox::inspect::enrich::{
    DatagramSniffer, FlowMeta, NetworkInfo, PlatformMeta, ProtocolSniffer, SniffConfig,
    StaticDomainEnricher, StaticProtocolHintEnricher, StreamSniffer,
};
use rustbox::inspect::observe::{ObservedDatagram, ObservedStream};
use rustbox::inspect::protocol::{
    dns_query, dns_response_addresses, normalize_authority, sniff_tcp, tls_sni, DnsQueryMeta,
    SniffResult,
};
use rustbox::types::{Endpoint, Host, IpAddress, Network, ProtocolHint};
use rustls::client::ClientConnection;
use rustls::pki_types::ServerName;
use rustls::{ClientConfig, RootCertStore};
use std::sync::Arc;

const QUESTION: [u8; 29] = [
    0x12, 0x34, 1, 0, 0, 1, 0, 0, 0, 0, 0, 0, 7, b'e', b'x', b'a', b'm', b'p', b'l', b'e', 3, b'c',
    b'o', b'm', 0, 0, 1, 0, 1,
];

fn answer() -> Vec<u8> {
    let mut packet = QUESTION.to_vec();
    packet[2] = 0x81;
    packet[3] = 0x80;
    packet[7] = 1;
    packet.extend_from_slice(&[0xc0, 0x0c, 0, 1, 0, 1, 0, 0, 0, 60, 0, 4, 203, 0, 113, 7]);
    packet
}

fn flow(destination: Endpoint) -> FlowMeta {
    FlowMeta {
        network: Network::Tcp,
        source: Endpoint::localhost_v4(12345),
        destination,
        domain: None,
        protocol_hint: None,
    }
}

fn remote() -> Endpoint {
    Endpoint::new(Host::Ip(IpAddress::V4([203, 0, 113, 1])), 80)
}

#[test]
fn parses_http_host() {
    let value = sniff_tcp(b"GET / HTTP/1.1\r\nHost: Example.COM:8080\r\n\r\n");
    assert_eq!(value.protocol, Some(ProtocolHint::Http));
    assert_eq!(value.domain.as_deref(), Some("example.com"));
}

#[test]
fn parses_dns_query() {
    let p = [
        0x12, 0x34, 1, 0, 0, 1, 0, 0, 0, 0, 0, 0, 7, b'e', b'x', b'a', b'm', b'p', b'l', b'e', 3,
        b'c', b'o', b'm', 0, 0, 1, 0, 1,
    ];
    assert_eq!(
        dns_query(&p).map(|q| q.name).as_deref(),
        Some("example.com")
    );
}

fn client_hello() -> Vec<u8> {
    let provider = Arc::new(rustls::crypto::aws_lc_rs::default_provider());
    let config = ClientConfig::builder_with_provider(provider)
        .with_safe_default_protocol_versions()
        .expect("versions")
        .with_root_certificates(RootCertStore::empty())
        .with_no_client_auth();
    let mut client = ClientConnection::new(
        Arc::new(config),
        ServerName::try_from("tls.example")
            .expect("name")
            .to_owned(),
    )
    .expect("client");
    let mut hello = Vec::new();
    client.write_tls(&mut hello).expect("hello");
    hello
}

#[test]
fn parses_tls_sni() {
    let hello = client_hello();
    assert_eq!(tls_sni(&hello).as_deref(), Some("tls.example"));
}

#[test]
fn tls_streams_are_recognised() {
    let found = sniff_tcp(&client_hello());
    assert_eq!(found.protocol, Some(ProtocolHint::Tls));
    assert_eq!(found.domain.as_deref(), Some("tls.example"));
}

#[test]
fn streams_of_unknown_protocols_say_nothing() {
    let found = sniff_tcp(&[0; 64]);
    assert_eq!(found.protocol, None);
    assert_eq!(found.domain, None);
}

#[test]
fn authorities_lose_their_port() {
    assert_eq!(
        normalize_authority("Example.COM:8080").as_deref(),
        Some("example.com")
    );
    assert_eq!(
        normalize_authority("example.com").as_deref(),
        Some("example.com")
    );
}

#[test]
fn replays_stream_prefix_after_http_sniff() {
    let request = b"GET / HTTP/1.1\r\nHost: replay.example\r\n\r\n".to_vec();
    let sniffer = ProtocolSniffer::default();
    let mut stream = StreamSniffer::new(&sniffer.config);
    assert!(stream.wanted() >= request.len());
    let found = stream.received(&request);
    let mut meta = flow(remote());
    sniffer.enrich(&mut meta, &found, 0);
    assert_eq!(meta.domain, Some(Host::domain("replay.example")));
    assert_eq!(meta.protocol_hint, Some(ProtocolHint::Http));
    let mut observed = ObservedStream::new(stream.prefix, found.dns_query);
    let mut replay = Vec::new();
    while let Some(bytes) = observed.poll_read(7) {
        replay.extend_from_slice(&bytes);
    }
    assert_eq!(replay, request);
}

#[test]
fn what_is_known_of_a_flow_stays() {
    let mut reverse = ReverseDns::new(8);
    reverse.record("known.example", &[(IpAddress::V4([203, 0, 113, 1]), 60)], 0);
    let sniffer = ProtocolSniffer::with_reverse_dns(SniffConfig::default(), reverse);
    let found = SniffResult {
        protocol: Some(ProtocolHint::Tls),
        domain: Some("sniffed.example".to_string()),
        dns_query: None,
    };
    let mut meta = flow(remote());
    sniffer.enrich(&mut meta, &found, 1);
    assert_eq!(meta.domain, Some(Host::domain("known.example")));
    assert_eq!(meta.protocol_hint, Some(ProtocolHint::Tls));
    assert_eq!(sniffer.reverse_dns().capacity, 8);

    let mut meta = flow(remote());
    meta.domain = Some(Host::domain("given.example"));
    meta.protocol_hint = Some(ProtocolHint::Dns);
    sniffer.enrich(&mut meta, &found, 1);
    assert_eq!(meta.domain, Some(Host::domain("given.example")));
    assert_eq!(meta.protocol_hint, Some(ProtocolHint::Dns));
}

#[test]
fn sniffers_stop_at_their_limit() {
    let config = SniffConfig {
        max_bytes: 4,
        max_datagrams: 1,
        timeout_millis: 300,
    };
    let mut stream = StreamSniffer::new(&config);
    assert_eq!(stream.wanted(), 4);
    stream.received(b"abcd");
    assert_eq!(stream.wanted(), 0);
    assert_eq!(stream.finish().protocol, None);
}

#[test]
fn datagrams_with_a_query_are_recognised() {
    let mut sniffer = DatagramSniffer::new(&SniffConfig::default());
    assert!(sniffer.wanted() > 0);
    let found = sniffer.received(QUESTION.to_vec(), remote());
    assert_eq!(found.protocol, Some(ProtocolHint::Dns));
    let query = found.dns_query.expect("query");
    assert_eq!((query.id, query.name.as_str()), (0x1234, "example.com"));
    assert_eq!(sniffer.replay.len(), 1);
}

#[test]
fn answers_to_an_observed_query_are_remembered() {
    let addresses = dns_response_addresses(&answer(), 0x1234);
    assert_eq!(addresses, vec![(IpAddress::V4([203, 0, 113, 7]), 60)]);
    assert!(dns_response_addresses(&answer(), 0x4321).is_empty());

    let query = || {
        Some(DnsQueryMeta {
            id: 0x1234,
            name: "example.com".to_string(),
        })
    };
    let mut reverse = ReverseDns::new(8);
    let observed = ObservedDatagram {
        replay: Vec::new(),
        query: query(),
    };
    observed.sent(&answer(), &mut reverse, 0);
    let address = IpAddress::V4([203, 0, 113, 7]);
    assert_eq!(reverse.lookup(address, 1).as_deref(), Some("example.com"));

    let mut reverse = ReverseDns::new(8);
    let mut stream = ObservedStream::new(Vec::new(), query());
    let packet = answer();
    let mut framed = vec![0, packet.len() as u8];
    framed.extend_from_slice(&packet);
    stream.written(&framed[..10], &mut reverse, 0);
    assert_eq!(reverse.lookup(address, 1), None);
    stream.written(&framed[10..], &mut reverse, 0);
    assert_eq!(reverse.lookup(address, 1).as_deref(), Some("example.com"));
}

#[test]
fn datagrams_are_replayed_in_order() {
    let mut observed = ObservedDatagram {
        replay: vec![
            (vec![1], Endpoint::localhost_v4(1)),
            (vec![2, 2], Endpoint::localhost_v4(2)),
        ],
        query: None,
    };
    let (bytes, source) = observed.poll_recv_from(8).expect("first").expect("fits");
    assert_eq!((bytes, source.port), (vec![1], 1));
    assert!(observed.poll_recv_from(1).expect("second").is_err());
    assert!(observed.poll_recv_from(1).is_none());
}

#[test]
fn static_enrichers_set_what_they_hold() {
    let mut meta = flow(remote());
    StaticDomainEnricher::new(Host::domain("set.example")).enrich(&mut meta);
    StaticProtocolHintEnricher::new(ProtocolHint::Quic).enrich(&mut meta);
    assert_eq!(meta.domain, Some(Host::domain("set.example")));
    assert_eq!(meta.protocol_hint, Some(ProtocolHint::Quic));
}

#[test]
fn platform_lookups_keep_a_known_interface() {
    let mut meta: PlatformMeta<u32, bool> = PlatformMeta {
        process: None,
        interface: Some("tun0".to_string()),
        wifi_ssid: None,
        wifi_bssid: None,
        network_type: None,
    };
    meta.enrich(
        Some(7),
        Some(NetworkInfo {
            interface: Some("wlan0".to_string()),
            wifi_ssid: Some("home".to_string()),
            wifi_bssid: None,
            network_type: Some(true),
        }),
    );
    assert_eq!(meta.process, Some(7));
    assert_eq!(meta.interface.as_deref(), Some("tun0"));
    assert_eq!(meta.wifi_ssid.as_deref(), Some("home"));
    assert_eq!(meta.network_type, Some(true));
}
