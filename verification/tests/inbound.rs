use base64::Engine;
use rustbox::anytls::uot::{
    uot_encode_packet, uot_get_packet_from_stream, uot_get_request_from_stream,
    uot_is_sentinel_destination, uot_sentinel_destination, UotMode, UotRequest, UotScan,
};
use rustbox::codec::socks5::Command;
use rustbox::inbound::anytls::{
    io_error, submit_stream, AnyTlsInbound, AnyTlsInboundDatagram, AnyTlsServerConfig,
    Authentication, Opening, OpeningScan, PendingStream, SubmitStep,
};
use rustbox::inbound::flow::FlowIds;
use rustbox::inbound::http::{
    is_reported, parse_proxy_request, reply_to, HttpInboundCredentials, HttpProxyInbound,
    HttpProxyRequest, PrefixedByteStream, RequestReader, RequestStep, MAX_HEADER_BYTES,
};
use rustbox::inbound::socks5::{
    io_error_to_std, on_command, relay_address, udp_relay_bind_endpoint, CommandAction,
    MixedInbound, MixedInboundCredentials, MixedProtocol, RelayStep, Socks5Inbound,
    Socks5InboundCredentials, Socks5UdpRelaySocket,
};
use rustbox::inbound::transparent::{
    TransparentInboundConfig, TransparentProxyInbound, TransparentRedirectMode,
};
use rustbox::inbound::tun::{
    network_transaction, InterfaceRef, NetworkControlReason, NetworkLease, NetworkOperation, PacketDeviceInfo,
    PlatformProxyConfig, RouteMode, SpawnStep, TunDnsMode, TunInbound, TunInboundConfig,
};
use rustbox::outbound::anytls::{
    encode_target, encode_uot_datagram, open_datagram, AnyTlsOutbound, AnyTlsTlsConfig,
};
use rustbox::outbound::http::{connect_request, HttpProxyCredentials};
use rustbox::outbound::socks5::{decode_datagram, encode_datagram};
use rustbox::types::{
    Endpoint, Host, IoError, IoErrorKind, IpAddress, IpCidr, Network, ProtocolHint, ServiceError,
    StreamError, StreamErrorKind,
};
use socks5_impl::{Address, StreamOperation};

fn read_whole(
    bytes: &[u8],
    credentials: &Option<HttpInboundCredentials>,
) -> Result<HttpProxyRequest, ServiceError> {
    match RequestReader::new().received(bytes, credentials) {
        RequestStep::Done(result) => result,
        RequestStep::More => panic!("the header has an end"),
    }
}

fn alice() -> HttpInboundCredentials {
    HttpInboundCredentials {
        username: "alice".to_string(),
        password: "secret".to_string(),
    }
}

#[test]
fn http_connect_tunnels_bytes_to_direct_outbound() {
    let mut reader = RequestReader::new();
    let head = b"CONNECT 127.0.0.1:4321 HTTP/1.1\r\nHost: 127.0";
    assert!(matches!(reader.received(head, &None), RequestStep::More));
    let request = match reader.received(b".0.1:4321\r\n\r\nping", &None) {
        RequestStep::Done(Ok(request)) => request,
        _ => panic!("the request is whole"),
    };
    assert!(request.is_connect);
    assert_eq!(request.host, "127.0.0.1");
    assert_eq!(request.port, 4321);
    assert_eq!(request.prefix, b"ping");

    let mut inbound = HttpProxyInbound::new(1, Endpoint::localhost_v4(0));
    let flow = inbound.accepted(
        Endpoint::localhost_v4(999),
        &request,
        Some(IpAddress::V4([127, 0, 0, 1])),
    );
    assert_eq!(flow.id, 1);
    assert_eq!(flow.inbound, 1);
    assert_eq!(flow.meta.network, Network::Tcp);
    assert_eq!(flow.meta.destination, Endpoint::localhost_v4(4321));
    assert_eq!(
        flow.meta.domain,
        Some(Host::Ip(IpAddress::V4([127, 0, 0, 1])))
    );
    assert_eq!(flow.meta.protocol_hint, Some(ProtocolHint::Http));
    let reply = reply_to(&Ok(request)).expect("reply");
    assert!(reply.starts_with("HTTP/1.1 200"));
}

#[test]
fn http_absolute_form_request_is_forwarded_as_origin_form() {
    let request = read_whole(
        b"GET http://127.0.0.1:8080/path?q=1 HTTP/1.1\r\nHost: 127.0.0.1:8080\r\nProxy-Connection: keep-alive\r\n\r\nbody",
        &None,
    )
    .expect("request");
    assert!(!request.is_connect);
    assert_eq!(request.host, "127.0.0.1");
    assert_eq!(request.port, 8080);
    let text = String::from_utf8(request.prefix.clone()).expect("text");
    assert_eq!(
        text,
        "GET /path?q=1 HTTP/1.1\r\nHost: 127.0.0.1:8080\r\n\r\nbody"
    );
    assert_eq!(reply_to(&Ok(request)), None);
}

#[test]
fn http_inbound_requires_basic_auth_when_configured() {
    let refused = read_whole(
        b"GET http://example.test/ HTTP/1.1\r\nHost: example.test\r\n\r\n",
        &Some(alice()),
    );
    let reply = reply_to(&refused).expect("reply");
    assert!(reply.starts_with("HTTP/1.1 407"));
}

#[test]
fn http_clients_prove_themselves_to_the_proxy() {
    let target = Endpoint::new(Host::domain("example.test"), 443);
    let given = Some(HttpProxyCredentials {
        username: "alice".to_string(),
        password: "secret".to_string(),
    });
    let mut bytes = connect_request(&target, "example.test", &given).into_bytes();
    bytes.extend_from_slice(b"more");
    let request = read_whole(&bytes, &Some(alice())).expect("accepted");
    assert!(request.is_connect);
    assert_eq!(request.target(None), target);
    assert_eq!(request.prefix, b"more");

    let wrong = Some(HttpInboundCredentials {
        username: "alice".to_string(),
        password: "other".to_string(),
    });
    assert_eq!(
        read_whole(&bytes, &wrong).err().expect("refused").message,
        "HTTP proxy authentication required"
    );
}

#[test]
fn http_requests_that_make_no_sense_are_refused() {
    let cases: [(&[u8], &str); 11] = [
        (
            b"GET\r\n\r\n",
            "HTTP proxy request has invalid version",
        ),
        (
            b"CONNECT host HTTP/1.1\r\n\r\n",
            "HTTP CONNECT authority must include a port",
        ),
        (
            b"CONNECT host:x HTTP/1.1\r\n\r\n",
            "HTTP CONNECT port is invalid",
        ),
        (
            b"CONNECT [::1 HTTP/1.1\r\n\r\n",
            "invalid bracketed IPv6 authority",
        ),
        (
            b"GET /path HTTP/1.1\r\n\r\n",
            "HTTP proxy request target must use absolute-form",
        ),
        (
            b"GET ftp://host/ HTTP/1.1\r\n\r\n",
            "HTTP proxy request scheme is unsupported",
        ),
        (
            b"GET http:///path HTTP/1.1\r\n\r\n",
            "HTTP proxy request authority is empty",
        ),
        (
            b"GET http://host:99999/ HTTP/1.1\r\n\r\n",
            "HTTP proxy port is invalid",
        ),
        (
            b"GET http://[::1/ HTTP/1.1\r\n\r\n",
            "invalid bracketed IPv6 authority",
        ),
        (
            b"GET http://[::1]:x/ HTTP/1.1\r\n\r\n",
            "HTTP proxy port is invalid",
        ),
        (
            b"\xff\r\n\r\n",
            "HTTP proxy request is not valid UTF-8",
        ),
    ];
    for (bytes, message) in cases {
        let refused = read_whole(bytes, &None);
        assert!(reply_to(&refused).expect("reply").contains("400"));
        assert_eq!(refused.err().expect("refused").message, message);
    }
}

#[test]
fn http_targets_have_default_ports() {
    let read = |line: &str| {
        let bytes = format!("GET {line} HTTP/1.0\r\n\r\n").into_bytes();
        parse_proxy_request(&bytes, bytes.len() - 4, &None).expect("request")
    };
    let plain = read("http://example.test");
    assert_eq!((plain.host.as_str(), plain.port), ("example.test", 80));
    assert!(plain.prefix.starts_with(b"GET / HTTP/1.0\r\n"));
    let secure = read("https://example.test?x=1");
    assert_eq!(secure.port, 443);
    assert!(secure.prefix.starts_with(b"GET /?x=1 HTTP/1.0\r\n"));
    let literal = read("http://[::1]/a");
    assert_eq!((literal.host.as_str(), literal.port), ("::1", 80));
    let literal = read("http://[::1]:81/a");
    assert_eq!((literal.host.as_str(), literal.port), ("::1", 81));
}

#[test]
fn http_headers_have_a_limit() {
    let mut reader = RequestReader::new();
    let chunk = vec![b'a'; MAX_HEADER_BYTES - 1];
    assert!(matches!(reader.received(&chunk, &None), RequestStep::More));
    match reader.received(b"a", &None) {
        RequestStep::Done(Err(error)) => {
            assert_eq!(error.message, "HTTP proxy headers exceeded limit")
        }
        _ => panic!("the limit is reached"),
    }
    match RequestReader::new().received(b"", &None) {
        RequestStep::Done(Err(error)) => {
            assert_eq!(error.message, "connection closed before HTTP headers")
        }
        _ => panic!("the connection is closed"),
    }
}

#[test]
fn services_start_once() {
    let mut http = HttpProxyInbound::new(1, Endpoint::localhost_v4(80)).with_credentials(alice());
    assert!(http.start().is_ok());
    assert_eq!(
        http.start().err().expect("again").message,
        "http inbound already started"
    );
    assert_eq!(http.local_endpoint(), None);
    http.lifecycle.bound(None, &Endpoint::localhost_v4(80));
    assert_eq!(http.local_endpoint(), Some(Endpoint::localhost_v4(80)));
    http.lifecycle.stop();
    assert!(http.start().is_ok());

    let mut socks = Socks5Inbound::new(2, Endpoint::localhost_v4(1080));
    assert!(socks.start().is_ok());
    assert_eq!(
        socks.start().err().expect("again").message,
        "socks5 inbound already started"
    );
    let mut mixed = MixedInbound::new(3, Endpoint::localhost_v4(1080));
    assert!(mixed.start().is_ok());
    assert_eq!(
        mixed.start().err().expect("again").message,
        "mixed inbound already started"
    );
    assert_eq!(socks.local_endpoint(), None);
    assert_eq!(mixed.local_endpoint(), None);
}

#[test]
fn flow_numbers_start_over_without_zero() {
    let mut ids = FlowIds::new();
    assert_eq!((ids.take(), ids.take()), (1, 2));
    let mut last = FlowIds { next: u64::MAX };
    assert_eq!((last.take(), last.take()), (u64::MAX, 1));
}

#[test]
fn prefixes_are_read_before_the_stream() {
    let mut stream = PrefixedByteStream::new(vec![1, 2, 3]);
    assert_eq!(stream.poll_read(0), None);
    assert_eq!(stream.poll_read(2), Some(vec![1, 2]));
    assert_eq!(stream.poll_read(2), Some(vec![3]));
    assert_eq!(stream.poll_read(2), None);
    let mut stream = rustbox::inbound::socks5::PrefixedByteStream::new(vec![1]);
    assert_eq!(stream.poll_read(0), Some(vec![]));
    assert_eq!(stream.poll_read(9), Some(vec![1]));
    assert_eq!(stream.poll_read(9), None);
}

#[test]
fn socks_clients_give_the_right_name_and_password() {
    let credentials = Socks5InboundCredentials {
        username: "alice".to_string(),
        password: "secret".to_string(),
    };
    assert!(credentials.accepts("alice", "secret"));
    assert!(!credentials.accepts("alice", "other"));
    assert!(!credentials.accepts("bob", "secret"));
    let inbound = Socks5Inbound::new(1, Endpoint::localhost_v4(0)).with_credentials(credentials);
    assert!(inbound.credentials.is_some());
}

#[test]
fn socks_commands_decide_what_is_done() {
    let peer = Endpoint::localhost_v4(999);
    let target = Endpoint::new(Host::Ip(IpAddress::V4([0, 0, 0, 0])), 0);
    assert!(matches!(
        on_command(Command::Connect, &target, &peer),
        CommandAction::Connect
    ));
    match on_command(Command::UdpAssociate, &target, &peer) {
        CommandAction::Associate(bind) => assert_eq!(bind, Endpoint::localhost_v4(0)),
        _ => panic!("a socket is bound"),
    }
    match on_command(Command::Bind, &target, &peer) {
        CommandAction::Refuse(error) => {
            assert_eq!(error.message, "SOCKS5 BIND is not supported")
        }
        _ => panic!("the command is refused"),
    }
    let named = Endpoint::new(Host::Ip(IpAddress::V4([192, 0, 2, 1])), 7);
    assert_eq!(
        udp_relay_bind_endpoint(&named, &peer),
        Endpoint::new(Host::Ip(IpAddress::V4([192, 0, 2, 1])), 0)
    );
    let domain = Endpoint::new(Host::domain("client.test"), 7);
    assert_eq!(
        udp_relay_bind_endpoint(&domain, &peer),
        Endpoint::localhost_v4(0)
    );
    assert_eq!(
        relay_address(&Some(Endpoint::localhost_v4(5))).ok(),
        Some((IpAddress::V4([127, 0, 0, 1]), 5))
    );
    assert_eq!(
        relay_address(&None).err().expect("none").message,
        "UDP relay socket did not report local endpoint"
    );
    assert_eq!(
        relay_address(&Some(domain)).err().expect("domain").message,
        "cannot use domain endpoint client.test as SOCKS reply bind address"
    );
}

#[test]
fn socks_flows_name_their_destination() {
    let mut inbound = Socks5Inbound::new(4, Endpoint::localhost_v4(0));
    let flow = inbound.flow_meta(
        Endpoint::localhost_v4(1),
        Endpoint::new(Host::domain("example.test"), 443),
        Network::Udp,
    );
    assert_eq!(flow.inbound, 4);
    assert_eq!(flow.meta.network, Network::Udp);
    assert_eq!(flow.meta.domain, Some(Host::domain("example.test")));
    assert_eq!(flow.meta.protocol_hint, Some(ProtocolHint::Socks5));
}

#[test]
fn socks_relays_know_their_client() {
    let target = Endpoint::new(Host::domain("echo.test"), 7);
    let client = Endpoint::localhost_v4(999);
    let mut relay = Socks5UdpRelaySocket::new(Host::Ip(IpAddress::V4([127, 0, 0, 1])));
    assert_eq!(
        relay.poll_send_to(b"early", &target).err().expect("early"),
        IoError::new(
            IoErrorKind::Closed,
            "SOCKS5 UDP client endpoint is not known yet"
        )
    );
    let packet = encode_datagram(&target, b"ping").expect("packet");
    let stranger = Endpoint::new(Host::Ip(IpAddress::V4([192, 0, 2, 1])), 1);
    assert!(matches!(
        relay.received(&packet, stranger, 64),
        RelayStep::Skip
    ));
    let mut part = packet.clone();
    part[2] = 1;
    assert!(matches!(
        relay.received(&part, client.clone(), 64),
        RelayStep::Skip
    ));
    assert!(matches!(
        relay.received(&[1, 2], client.clone(), 64),
        RelayStep::Skip
    ));
    assert!(matches!(
        relay.received(&packet, client.clone(), 3),
        RelayStep::Failed(_)
    ));
    match relay.received(&packet, client.clone(), 64) {
        RelayStep::Packet(payload, to) => {
            assert_eq!(payload, b"ping");
            assert_eq!(to, target);
        }
        _ => panic!("the datagram is passed on"),
    }
    let (reply, to) = relay.poll_send_to(b"pong", &target).expect("reply");
    assert_eq!(to, client);
    assert_eq!(
        decode_datagram(&reply, 64).expect("decoded"),
        (b"pong".to_vec(), target.clone())
    );
    let long = Endpoint::new(Host::domain(&"a".repeat(256)), 7);
    assert_eq!(
        relay.poll_send_to(b"pong", &long).err().expect("long").kind,
        IoErrorKind::Other
    );
    assert!(relay.check_open().is_ok());
    relay.close();
    assert!(relay.check_open().is_err());
    assert_eq!(
        relay.poll_send_to(b"pong", &target).err().expect("closed").message,
        "SOCKS5 UDP association is closed"
    );
}

#[test]
fn mixed_ports_go_by_the_first_byte() {
    let inbound = MixedInbound::new(1, Endpoint::localhost_v4(0)).with_credentials(
        MixedInboundCredentials {
            username: "alice".to_string(),
            password: "secret".to_string(),
        },
    );
    match inbound.protocol_of(Some(5)).expect("socks") {
        MixedProtocol::Socks5(Some(given)) => assert!(given.accepts("alice", "secret")),
        _ => panic!("five is SOCKS5"),
    }
    match inbound.protocol_of(Some(b'C')).expect("http") {
        MixedProtocol::Http(Some(given)) => assert_eq!(given, alice()),
        _ => panic!("a letter is HTTP"),
    }
    assert_eq!(
        inbound.protocol_of(None).err().expect("closed").message,
        "mixed inbound connection closed before protocol byte"
    );
}

#[test]
fn starts_with_transparent_provider() {
    let mut inbound = TransparentProxyInbound::new(
        1,
        Endpoint::localhost_v4(12345),
        TransparentInboundConfig {
            mode: TransparentRedirectMode::Redirect,
            mark: None,
        },
    );
    let bind = inbound.start().expect("start transparent inbound");
    assert_eq!(bind.mode, TransparentRedirectMode::Redirect);
    assert_eq!(bind.mark, None);
    inbound.bound(Some(bind.listen));

    assert_eq!(
        inbound.local_endpoint(),
        Some(Endpoint::localhost_v4(12345))
    );
    assert_eq!(
        inbound.start().err().expect("again").message,
        "transparent inbound already started"
    );
}

#[test]
fn redirected_connections_keep_their_destination() {
    let mut inbound = TransparentProxyInbound::new(
        3,
        Endpoint::localhost_v4(12345),
        TransparentInboundConfig {
            mode: TransparentRedirectMode::Tproxy,
            mark: Some(7),
        },
    );
    let target = Endpoint::new(Host::Ip(IpAddress::V4([203, 0, 113, 1])), 443);
    let flow = inbound.accepted(Endpoint::localhost_v4(1), target.clone());
    assert_eq!(flow.meta.destination, target);
    assert_eq!(flow.meta.domain, Some(target.host));
    assert_eq!(flow.meta.protocol_hint, None);
}

fn test_tun_config() -> TunInboundConfig {
    TunInboundConfig {
        interface_name: Some("rustbox0".to_string()),
        addresses: vec![IpCidr::new(IpAddress::V4([172, 18, 0, 1]), 30).expect("cidr")],
        mtu: Some(1500),
        route_mode: RouteMode::Manual,
        dns_mode: TunDnsMode::Off,
        auto_route: false,
        strict_route: false,
        route_includes: Vec::new(),
        route_excludes: Vec::new(),
        dns_servers: Vec::new(),
        platform_proxy: None,
        platform_http_proxy: false,
        auto_redirect: false,
    }
}

fn device(config: &TunInboundConfig) -> PacketDeviceInfo {
    PacketDeviceInfo {
        name: "rustbox0".to_string(),
        index: Some(9),
        addresses: config.addresses.clone(),
        mtu: config.mtu,
    }
}

fn lease() -> NetworkLease {
    NetworkLease {
        id: 1,
        active: true,
    }
}

#[test]
fn starts_packet_device_and_applies_manual_transaction() {
    let mut inbound = TunInbound::new(1, test_tun_config());
    let opened = inbound.start().expect("start tun");
    assert_eq!(opened.name.as_deref(), Some("rustbox0"));
    assert_eq!(opened.mtu, Some(1500));

    let transaction = network_transaction(&inbound.config, &device(&inbound.config));
    assert!(transaction.operations.is_empty());
    inbound.applied(lease()).expect("attach");
    assert_eq!(inbound.task_name(), "tun-inbound-stack-1");
    assert!(matches!(inbound.spawned(Ok(1)), SpawnStep::Started));
    assert!(inbound.network_lease().is_some());
}

#[test]
fn plans_auto_route_from_device_index() {
    let config = TunInboundConfig {
        route_mode: RouteMode::Auto,
        auto_route: true,
        route_includes: vec![IpCidr::new(IpAddress::V4([10, 0, 0, 0]), 8).expect("cidr")],
        ..test_tun_config()
    };
    let transaction = network_transaction(
        &config,
        &PacketDeviceInfo {
            name: "rustbox0".to_string(),
            index: Some(9),
            addresses: config.addresses.clone(),
            mtu: config.mtu,
        },
    );

    assert_eq!(transaction.reason, NetworkControlReason::TunInbound);
    assert_eq!(transaction.operations.len(), 1);
    assert!(matches!(
        &transaction.operations[0],
        NetworkOperation::AddRoute {
            interface: InterfaceRef::Index(9),
            ..
        }
    ));
}

#[test]
fn stop_cancels_stack_and_releases_network_lease() {
    let mut inbound = TunInbound::new(9, test_tun_config());
    inbound.start().expect("start");
    inbound.applied(lease()).expect("attach");
    inbound.spawned(Ok(1));

    let mut released = 0;
    assert_eq!(inbound.stop(), Some(1));
    if inbound.stopped().is_some() {
        released += 1;
    }

    assert_eq!(released, 1);
    assert!(inbound.network_lease().is_none());
    assert!(!inbound.started);
}

#[test]
fn spawn_failure_rolls_back_network_lease_and_resets_started_state() {
    let mut inbound = TunInbound::new(9, test_tun_config());
    inbound.start().expect("start");
    inbound.applied(lease()).expect("attach");

    let mut released = 0;
    let error = match inbound.spawned(Err("spawn rejected")) {
        SpawnStep::Release(_) => {
            released += 1;
            inbound.rolled_back("spawn rejected", Ok(()))
        }
        _ => panic!("the changes are undone"),
    };

    assert!(error.message.contains("spawn rejected"));
    assert_eq!(released, 1);
    assert!(inbound.network_lease().is_none());
    assert!(!inbound.started);
}

#[test]
fn strict_route_uses_split_defaults_and_plans_dns_and_proxy() {
    let mut config = test_tun_config();
    config.auto_route = true;
    config.strict_route = true;
    config.route_mode = RouteMode::Strict;
    config.dns_servers = vec![IpAddress::V4([172, 18, 0, 1])];
    config.platform_proxy = Some(PlatformProxyConfig {
        listen: Endpoint::localhost_v4(7890),
        bypass: vec!["<local>".to_string()],
    });
    let transaction = network_transaction(
        &config,
        &PacketDeviceInfo {
            name: "rustbox0".to_string(),
            index: Some(9),
            addresses: config.addresses.clone(),
            mtu: config.mtu,
        },
    );

    assert_eq!(transaction.operations.len(), 4);
    assert!(transaction.operations.iter().any(|operation| matches!(
        operation,
        NetworkOperation::AddRoute { destination, .. } if destination.prefix_len == 1
    )));
    assert!(transaction
        .operations
        .iter()
        .any(|operation| matches!(operation, NetworkOperation::SetInterfaceDns { .. })));
    assert!(transaction
        .operations
        .iter()
        .any(|operation| matches!(operation, NetworkOperation::SetPlatformHttpProxy(_))));
}

#[test]
fn default_routes_follow_the_families_of_a_device() {
    let mut config = test_tun_config();
    config.auto_route = true;
    config.addresses.push(IpCidr::new(IpAddress::V6([1; 16]), 64).expect("v6"));
    config.route_excludes = vec![IpCidr::new(IpAddress::V4([192, 168, 0, 0]), 16).expect("v4")];
    let mut info = device(&config);
    info.index = None;
    let operations = network_transaction(&config, &info).operations;
    let interface = InterfaceRef::Name("rustbox0".to_string());
    let route = |address| NetworkOperation::AddRoute {
        destination: IpCidr::new(address, 0).expect("cidr"),
        gateway: None,
        interface: interface.clone(),
        metric: Some(1),
    };
    assert_eq!(
        operations,
        vec![
            route(IpAddress::V4([0; 4])),
            route(IpAddress::V6([0; 16])),
            NetworkOperation::PreserveRoute {
                destination: config.route_excludes[0]
            },
        ]
    );
}

#[test]
fn failed_rollbacks_and_second_starts_are_told() {
    let mut inbound = TunInbound::new(9, test_tun_config());
    inbound.start().expect("start");
    assert_eq!(
        inbound.start().err().expect("again").message,
        "tun inbound already started"
    );
    inbound.applied(lease()).expect("attach");
    assert_eq!(
        inbound.applied(lease()).err().expect("again").message,
        "tun inbound stack already attached"
    );
    assert!(matches!(
        inbound.spawned(Err("spawn rejected")),
        SpawnStep::Release(_)
    ));
    assert_eq!(
        inbound.rolled_back("spawn rejected", Err("busy")).message,
        "spawn rejected; network rollback failed: busy"
    );
    assert!(inbound.started);
    match inbound.spawned(Err("spawn rejected")) {
        SpawnStep::Failed(error) => assert_eq!(error.message, "spawn rejected"),
        _ => panic!("there is nothing to undo"),
    }
    assert!(!inbound.started);
}

const CERTIFICATE: &str = "MIIBfjCCASOgAwIBAgIURrU0k5v6gPYm4Uv5/tbXngdjs0MwCgYIKoZIzj0EAwIwFDESMBAGA1UEAwwJbG9jYWxob3N0MB4XDTI2MTExNjE3MjQwNloXDTM2MTExMzE3MjQwNlowFDESMBAGA1UEAwwJbG9jYWxob3N0MFkwEwYHKoZIzj0CAQYIKoZIzj0DAQcDQgAEfbmIUzrFYewAoGJTqSO8YA6RyDPKCNb9LrWh2iZ1ZVcch/ICJ4HxdB/uA9dHyOa+8uAQcAy9FdsmE3Ae3FYrl6NTMFEwHQYDVR0OBBYEFOVS5YElZ49M/1yxZQ4v9sgtNyvvMB8GA1UdIwQYMBaAFOVS5YElZ49M/1yxZQ4v9sgtNyvvMA8GA1UdEwEB/wQFMAMBAf8wCgYIKoZIzj0EAwIDSQAwRgIhAOD0c+yVyHfK0skBSkvuoldG7XjreAbK0JDvW4bxHUUxAiEApBO6Tcfuku49UzUGPwo9CWhEqP2d4SFQuUCQwt6TBrk=";

// Test keys, made for these tests alone.
const KEY: &str = "MIGHAgEAMBMGByqGSM49AgEGCCqGSM49AwEHBG0wawIBAQQgjnaLHpi7JHDUOG9+FUzgqpJuxKJqoJoG2KraqQFPCE2hRANCAAR9uYhTOsVh7ACgYlOpI7xgDpHIM8oI1v0utaHaJnVlVxyH8gIngfF0H+4D10fI5r7y4BBwDL0V2yYTcB7cViuX";
const OTHER_KEY: &str = "MIGHAgEAMBMGByqGSM49AgEGCCqGSM49AwEHBG0wawIBAQQghLFWMW6tk7Koz3Om5qQ3evR8ugQYv8x0/xuUqnv8KGShRANCAAQzHNlXq0xGAvpQ3QcZNCuOgk6ZB30ZXlLUlIv8aJD8DVfOk+y4OvKTxvfPO3ghBPxpfjFjra8yJxZ4Bz0ZaaAi";

fn pem(label: &str, body: &str) -> String {
    let bytes = base64::engine::general_purpose::STANDARD
        .decode(body)
        .expect("body");
    let text = base64::engine::general_purpose::STANDARD.encode(bytes);
    let mut out = format!("-----BEGIN {label}-----\n");
    for line in text.as_bytes().chunks(64) {
        out.push_str(std::str::from_utf8(line).expect("line"));
        out.push('\n');
    }
    out.push_str(&format!("-----END {label}-----\n"));
    out
}

fn server_config(password: &str) -> AnyTlsServerConfig {
    AnyTlsServerConfig {
        password: password.to_string(),
        certificate_pem: pem("CERTIFICATE", CERTIFICATE),
        private_key_pem: pem("PRIVATE KEY", KEY),
        alpn: vec!["h2".to_string()],
    }
}

#[test]
fn anytls_servers_check_their_configuration() {
    let make = |config: &AnyTlsServerConfig| {
        AnyTlsInbound::new(1, Endpoint::localhost_v4(0), config)
    };
    let inbound = make(&server_config("secret")).ok().expect("inbound");
    assert_eq!(inbound.tls.certificates.len(), 1);
    assert_eq!(inbound.tls.alpn, vec![b"h2".to_vec()]);
    assert_eq!(
        make(&server_config("")).err().expect("password").message,
        "anytls inbound password must not be empty"
    );
    let mut config = server_config("secret");
    config.private_key_pem = String::new();
    assert_eq!(
        make(&config).err().expect("key").message,
        "AnyTLS private key is missing"
    );
    config.private_key_pem = pem("PRIVATE KEY", OTHER_KEY);
    assert!(make(&config)
        .err()
        .expect("mismatch")
        .message
        .starts_with("build AnyTLS server TLS config: "));
    config.certificate_pem = "-----BEGIN CERTIFICATE-----\n*\n-----END CERTIFICATE-----\n".to_string();
    assert!(make(&config)
        .err()
        .expect("certificate")
        .message
        .starts_with("read AnyTLS certificate: "));
}

#[test]
fn anytls_clients_are_accepted_by_their_password() {
    let mut inbound = AnyTlsInbound::new(1, Endpoint::localhost_v4(0), &server_config("secret"))
        .ok()
        .expect("inbound");
    assert!(inbound.start().is_ok());
    assert_eq!(
        inbound.start().err().expect("again").message,
        "anytls inbound already started"
    );
    let client = |password: &str| {
        AnyTlsOutbound::new(
            Endpoint::localhost_v4(443),
            "127.0.0.1",
            password,
            AnyTlsTlsConfig {
                server_name: Some("localhost".to_string()),
                insecure: true,
                alpn: Vec::new(),
            },
        )
        .ok()
        .expect("outbound")
        .authentication(Some(30))
        .expect("proof")
    };
    let mut bytes = client("secret");
    assert_eq!(bytes.len(), 64);
    bytes.extend_from_slice(b"session");
    assert_eq!(inbound.authenticate(&bytes), Authentication::Accepted(64));
    assert_eq!(inbound.authenticate(&bytes[..63]), Authentication::Short);
    assert_eq!(inbound.authenticate(&bytes[..8]), Authentication::Short);
    assert_eq!(
        inbound.authenticate(&client("other")),
        Authentication::Refused
    );
}

#[test]
fn anytls_streams_say_what_they_ask_for() {
    let target = Endpoint::new(Host::domain("example.test"), 443);
    let mut bytes = encode_target(&target).expect("target");
    let len = bytes.len();
    bytes.extend_from_slice(b"ping");
    match submit_stream(&bytes) {
        OpeningScan::Found(Opening::Stream(found), taken) => {
            assert_eq!(found, target);
            assert_eq!(taken, len);
        }
        _ => panic!("a connection is asked for"),
    }
    assert!(matches!(submit_stream(&bytes[..4]), OpeningScan::Short));

    let (first, second) = open_datagram();
    let mut opening = first.clone();
    opening.extend_from_slice(&second);
    match submit_stream(&opening) {
        OpeningScan::Found(Opening::Datagram(found), taken) => {
            assert_eq!(found, Endpoint::new(Host::Ip(IpAddress::V4([0; 4])), 0));
            assert_eq!(taken, opening.len());
        }
        _ => panic!("datagrams are asked for"),
    }
    assert!(matches!(submit_stream(&first), OpeningScan::Short));
    let at = first.len();
    opening[at] = 1;
    match submit_stream(&opening) {
        OpeningScan::Bad(error) => assert_eq!(
            error,
            StreamError::new(
                StreamErrorKind::Unsupported,
                "only AnyTLS UOT datagram mode is supported"
            )
        ),
        _ => panic!("the mode is refused"),
    }
    match submit_stream(&[9]) {
        OpeningScan::Bad(error) => {
            assert_eq!(error.message, "unsupported SOCKS address type 9")
        }
        _ => panic!("the address is refused"),
    }
}

#[test]
fn anytls_flows_name_a_domain_only_where_there_is_one() {
    let mut inbound = AnyTlsInbound::new(5, Endpoint::localhost_v4(0), &server_config("secret"))
        .ok()
        .expect("inbound");
    assert_eq!(inbound.local_endpoint(), None);
    let peer = Endpoint::localhost_v4(1);
    let domain = Endpoint::new(Host::domain("example.test"), 443);
    let mut open = |bytes: &[u8]| {
        let mut stream = PendingStream::new();
        inbound.submit(&mut stream, peer.clone(), bytes)
    };
    let flow = |step: SubmitStep| match step {
        SubmitStep::Flow(flow) => flow,
        _ => panic!("the stream is open"),
    };
    let named = encode_target(&domain).expect("target");
    let first = flow(open(&named));
    assert_eq!(first.id, 1);
    assert_eq!(first.meta.domain, Some(Host::domain("example.test")));
    assert_eq!(first.meta.network, Network::Tcp);
    let second = flow(open(
        &encode_target(&Endpoint::localhost_v4(2)).expect("target"),
    ));
    assert_eq!(second.meta.domain, None);
    let mut opening = encode_target(&uot_sentinel_destination()).expect("target");
    opening.push(0);
    opening.extend_from_slice(&named);
    let third = flow(open(&opening));
    assert_eq!(third.meta.domain, None);
    assert_eq!(third.meta.network, Network::Udp);
    assert_eq!(third.meta.destination, domain);
    assert_eq!(third.id, 3);
}

#[test]
fn anytls_streams_are_numbered_when_their_target_is_read() {
    let mut inbound = AnyTlsInbound::new(5, Endpoint::localhost_v4(0), &server_config("secret"))
        .ok()
        .expect("inbound");
    let peer = Endpoint::localhost_v4(1);
    let mut refused = PendingStream::new();
    let mut opening = encode_target(&uot_sentinel_destination()).expect("target");
    assert!(matches!(
        inbound.submit(&mut refused, peer.clone(), &opening[..3]),
        SubmitStep::More
    ));
    assert_eq!(refused.number, None);
    opening.push(1);
    match inbound.submit(&mut refused, peer.clone(), &opening[3..]) {
        SubmitStep::Failed(error) => {
            assert_eq!(error.message, "only AnyTLS UOT datagram mode is supported")
        }
        _ => panic!("the mode is refused"),
    }
    assert_eq!(refused.number, Some(1));
    let mut ended = PendingStream::new();
    match inbound.submit(&mut ended, peer.clone(), &[]) {
        SubmitStep::Failed(error) => assert_eq!(error.kind, StreamErrorKind::UnexpectedEof),
        _ => panic!("the stream ended"),
    }
    let mut stream = PendingStream::new();
    let mut bytes = encode_target(&Endpoint::localhost_v4(2)).expect("target");
    bytes.extend_from_slice(b"rest");
    match inbound.submit(&mut stream, peer, &bytes) {
        SubmitStep::Flow(flow) => assert_eq!(flow.id, 2),
        _ => panic!("the stream is open"),
    }
    assert_eq!(stream.bytes, b"rest");
}

#[test]
fn anytls_datagrams_are_framed_both_ways() {
    let target = Endpoint::new(Host::domain("dns.example.test"), 53);
    let frame = encode_uot_datagram(&target, b"ping").expect("frame");
    let mut socket = AnyTlsInboundDatagram::new();
    socket.received(&frame[..5]);
    assert!(socket.poll_recv_from(64).is_none());
    socket.received(&frame[5..]);
    assert_eq!(
        socket.poll_recv_from(64).expect("whole").expect("good"),
        (b"ping".to_vec(), target.clone())
    );
    socket.received(&frame);
    assert_eq!(
        socket.poll_recv_from(2).expect("whole").expect("good").0,
        b"pi".to_vec()
    );
    socket.received(&[7]);
    assert_eq!(
        socket.poll_recv_from(2).expect("bad").err().expect("bad"),
        IoError::new(IoErrorKind::Other, "unsupported SOCKS address type 7")
    );
    assert_eq!(
        AnyTlsInboundDatagram::poll_send_to(b"ping", &target).expect("frame"),
        frame
    );
    assert_eq!(
        AnyTlsInboundDatagram::poll_send_to(&vec![0; 65536], &target)
            .err()
            .expect("large"),
        IoError::new(IoErrorKind::InvalidInput, "UOT packet is too large")
    );
}

#[test]
fn failures_keep_their_kind_between_streams() {
    for kind in [
        IoErrorKind::Closed,
        IoErrorKind::Interrupted,
        IoErrorKind::InvalidInput,
        IoErrorKind::Unsupported,
        IoErrorKind::Other,
    ] {
        let told = io_error_to_std(IoError::new(kind, "text"));
        assert_eq!(rustbox::outbound::socks5::io_error(told).kind, kind);
    }
    let broken = StreamError::new(StreamErrorKind::BrokenPipe, "gone");
    assert_eq!(
        io_error(broken),
        IoError::new(IoErrorKind::Closed, "gone")
    );
    let odd = StreamError::new(StreamErrorKind::InvalidData, "odd");
    assert_eq!(io_error(odd).kind, IoErrorKind::Other);
}

#[test]
fn packet_addresses_are_those_of_socks() {
    let cases = [
        (
            Endpoint::new(Host::domain("example.test"), 53),
            Address::DomainAddress("example.test".into(), 53),
        ),
        (
            Endpoint::new(Host::Ip(IpAddress::V4([192, 0, 2, 1])), 443),
            Address::SocketAddress(([192, 0, 2, 1], 443).into()),
        ),
        (
            Endpoint::new(Host::Ip(IpAddress::V6([3; 16])), 80),
            Address::SocketAddress(([3_u8; 16], 80).into()),
        ),
    ];
    for (endpoint, address) in cases {
        let mut wire = Vec::new();
        address.write_to_buf(&mut wire);
        let request = UotRequest::new(UotMode::Datagram, endpoint.clone()).to_bytes();
        assert_eq!(request[0], 0);
        assert_eq!(&request[1..], &wire);
        match uot_get_request_from_stream(&request) {
            UotScan::Found(found, taken) => {
                assert_eq!(found.mode, UotMode::Datagram);
                assert_eq!(found.destination, endpoint);
                assert_eq!(taken, request.len());
            }
            _ => panic!("the request is whole"),
        }
        let packet = uot_encode_packet(UotMode::Datagram, Some(&endpoint), b"hi").expect("packet");
        match uot_get_packet_from_stream(UotMode::Datagram, &packet) {
            UotScan::Found((to, payload), taken) => {
                assert_eq!(to, Some(endpoint));
                assert_eq!(payload, b"hi");
                assert_eq!(taken, packet.len());
            }
            _ => panic!("the packet is whole"),
        }
    }
    for bytes in [vec![7_u8], vec![3, 1, 0xff, 0, 80]] {
        let told = Address::retrieve_from_stream(&mut bytes.as_slice())
            .err()
            .expect("no address");
        let mut request = vec![1_u8];
        request.extend_from_slice(&bytes);
        match uot_get_request_from_stream(&request) {
            UotScan::Bad(error) => assert_eq!(error.message, told.to_string()),
            _ => panic!("there is no address"),
        }
    }
}

#[test]
fn packets_need_a_destination_in_one_mode_only() {
    let target = Endpoint::localhost_v4(53);
    let message = |result: Result<Vec<u8>, StreamError>| result.err().expect("refused").message;
    assert_eq!(
        message(uot_encode_packet(UotMode::Datagram, None, b"x")),
        "Datagram mode requires a destination"
    );
    assert_eq!(
        message(uot_encode_packet(UotMode::Connected, Some(&target), b"x")),
        "Connected mode does not allow a destination"
    );
    assert_eq!(
        message(uot_encode_packet(UotMode::Connected, None, &vec![0; 65536])),
        "UOT packet too large"
    );
    assert_eq!(
        uot_encode_packet(UotMode::Connected, None, b"x").expect("packet"),
        vec![0, 1, b'x']
    );
    assert!(uot_is_sentinel_destination(&uot_sentinel_destination()));
    assert!(!uot_is_sentinel_destination(&target));
    assert_eq!(
        UotMode::try_from(9).err().expect("mode").message,
        "invalid UOT mode: 9"
    );
    assert_eq!(u8::from(UotMode::Connected), 1);
}

#[test]
fn mixed_flows_share_their_numbers() {
    let mut inbound = MixedInbound::new(9, Endpoint::localhost_v4(0));
    let peer = Endpoint::localhost_v4(1);
    let target = Endpoint::new(Host::domain("example.test"), 443);
    let first = inbound.socks5_flow(peer.clone(), target.clone(), Network::Udp);
    assert_eq!((first.id, first.inbound), (1, 9));
    assert_eq!(first.meta.network, Network::Udp);
    assert_eq!(first.meta.protocol_hint, Some(ProtocolHint::Socks5));
    let request = read_whole(b"CONNECT 10.0.0.1:80 HTTP/1.1\r\n\r\n", &None)
        .ok()
        .expect("request");
    let second = inbound.http_flow(peer.clone(), &request, Some(IpAddress::V4([10, 0, 0, 1])));
    assert_eq!((second.id, second.inbound), (2, 9));
    assert_eq!(
        second.meta.destination,
        Endpoint::new(Host::Ip(IpAddress::V4([10, 0, 0, 1])), 80)
    );
    assert_eq!(second.meta.protocol_hint, Some(ProtocolHint::Http));
    assert_eq!(inbound.socks5_flow(peer, target, Network::Tcp).id, 3);
}

#[test]
fn missing_credentials_are_not_reported() {
    let wanted = Some(alice());
    let refused = read_whole(b"CONNECT a.test:80 HTTP/1.1\r\n\r\n", &wanted);
    assert!(!is_reported(&refused.err().expect("refused")));
    let refused = read_whole(b"nothing\r\n\r\n", &None);
    assert!(is_reported(&refused.err().expect("refused")));
}
