use rustbox::outbound::anytls::{
    std_io_error, stream_closed, AnyTlsDatagram, AnyTlsOutbound, AnyTlsTlsConfig,
    SUPPORTED_ANYTLS_PROFILE,
};
use rustbox::events::{Event, EventKind, EventLevel, ServiceEvents};
use rustbox::outbound::direct::{udp_bind_endpoint_for_target, DirectOutbound};
use rustbox::outbound::frame_writer::WriteState;
use rustbox::outbound::http::{
    connect_request, endpoint_authority, validate_connect_response, ConnectResponse, ConnectStep,
    HttpProxyCredentials, HttpProxyOutbound,
};
use rustbox::outbound::hysteria2::{
    connect_failed, datagram_failed, mbps_to_bytes, session_closed, Hysteria2Stage,
};
use rustbox::outbound::naive::NaiveOutbound;
use rustbox::outbound::shadowsocks::ShadowsocksOutbound;
use rustbox::outbound::socks5::{
    bind_udp_for_target, decode_datagram, encode_datagram, Socks5Credentials, Socks5Outbound,
};
use rustbox::outbound::trojan::{
    build_header, encode_endpoint, encode_hex, parse_frame, TrojanDatagram, TrojanOutbound,
    TrojanTlsConfig, ATYP_DOMAIN, CMD_CONNECT,
};
use rustbox::outbound::tuic::{
    authenticate, decode_address, decode_packet, dissociate, encode_address, heartbeat,
    open_stream, Associations, ConnectionStep, PacketSender, Reassembler, TuicConfig, TuicOutbound,
};
use rustbox::outbound::vless::{
    encode_request, ResponseState, VlessDatagram, VlessOutbound, VlessTlsConfig, COMMAND_STREAM,
};
use rustbox::outbound::wireguard::{
    apply_reserved, bind_family, cidr_contains, decode_key, destination_of, keepalive, peer_at,
    poll_recv_from, poll_send_to, resolve_failed, tunnel_step, TunnelOutput, TunnelStep,
    WireGuardConfig, WireGuardOutbound, WireGuardPeerConfig,
};
use rustbox::transport::config::TlsLayerConfig;
use rustbox::types::{
    Endpoint, Host, IoError, IoErrorKind, IpAddress, IpCidr, StreamError, StreamErrorKind,
};
use sha2::{Digest, Sha224};

#[test]
fn supported_profile_matches_the_exact_dependency_pin() {
    assert_eq!(
        SUPPORTED_ANYTLS_PROFILE,
        "canonical-anytls-v2/rustbox-anytls-0.2.3"
    );
}

#[test]
fn anytls_outbound_rejects_empty_password() {
    let error = match AnyTlsOutbound::new(
        Endpoint::localhost_v4(443),
        "127.0.0.1",
        "",
        AnyTlsTlsConfig::default(),
    ) {
        Ok(_) => panic!("expected empty password to fail"),
        Err(error) => error,
    };

    assert!(error.message.contains("password"));
}

#[test]
fn anytls_proofs_have_a_limit() {
    let outbound = AnyTlsOutbound::new(
        Endpoint::localhost_v4(443),
        "localhost",
        "secret",
        AnyTlsTlsConfig::default(),
    )
    .ok()
    .expect("outbound");
    assert_eq!(outbound.server_name, "localhost");
    assert_eq!(outbound.authentication(None).expect("none").len(), 34);
    assert_eq!(outbound.authentication(Some(-5)).expect("none").len(), 34);
    assert_eq!(
        outbound.authentication(Some(70_000)).err().expect("large").message,
        "anytls padding is too large"
    );
    assert_eq!(stream_closed().kind, StreamErrorKind::UnexpectedEof);
    assert_eq!(std_io_error(stream_closed()).kind, IoErrorKind::Closed);
    assert!(AnyTlsDatagram::new().poll_recv_from(1).is_none());
}

#[test]
fn converts_bandwidth_without_overflow() {
    assert_eq!(mbps_to_bytes(8), 1_000_000);
    assert_eq!(mbps_to_bytes(u64::MAX), u64::MAX / 8);
}

#[test]
fn hysteria_failures_say_what_failed() {
    assert!(connect_failed(Hysteria2Stage::Connect, "late")
        .message
        .ends_with("late"));
    assert!(datagram_failed(true, "late").message.ends_with("late"));
    assert_ne!(
        datagram_failed(true, "late").message,
        datagram_failed(false, "late").message
    );
    assert_eq!(session_closed().kind, IoErrorKind::Closed);
}

#[test]
fn rejects_unknown_shadowsocks_method() {
    let error = match ShadowsocksOutbound::new(
        Endpoint::localhost_v4(8388),
        "not-a-method",
        "barfoo!",
    ) {
        Ok(_) => panic!("expected unknown shadowsocks method to fail"),
        Err(error) => error,
    };

    assert!(error.message.contains("unsupported shadowsocks method"));
}

#[test]
fn shadowsocks_methods_and_passwords_are_checked() {
    let make = |method: &str, password: &str| {
        ShadowsocksOutbound::new(Endpoint::localhost_v4(8388), method, password)
    };
    assert!(make("aes-256-gcm", "barfoo!").is_ok());
    assert!(make("2022-blake3-aes-128-gcm", "not base64!").is_err());
    assert!(make("2022-blake3-aes-128-gcm", "AAECAwQFBgcICQoLDA0ODw==").is_ok());
}

#[test]
fn shadowsocks_packets_fit_or_fail() {
    let read = rustbox::outbound::shadowsocks::poll_recv_from;
    assert_eq!(read(b"pong....", 4, 8, 8).expect("fits"), b"pong");
    assert_eq!(
        read(b"pong", 4, 40, 8).err().expect("cut").message,
        "shadowsocks UDP payload length exceeds packet buffer"
    );
    assert_eq!(
        read(b"pong", 4, 4, 2).err().expect("room").message,
        "shadowsocks UDP payload exceeds relay buffer"
    );
}

#[test]
fn http_outbound_connects_stream_through_connect_proxy() {
    let target = Endpoint::new(Host::domain("example.test"), 443);
    let request = connect_request(&target, "example.test", &None);
    assert!(request.starts_with("CONNECT example.test:443 "));
    assert!(request.ends_with("\r\n\r\n"));
    let (response, step) =
        ConnectResponse::new().received(b"HTTP/1.1 200 Connection Established\r\n\r");
    assert!(matches!(step, Ok(ConnectStep::More)));
    let mut stream = match response.received(b"\npong").1 {
        Ok(ConnectStep::Open(stream)) => stream,
        _ => panic!("the tunnel is open"),
    };
    assert_eq!(stream.poll_read(4), Some(b"pong".to_vec()));
    assert_eq!(stream.poll_read(4), None);
}

#[test]
fn http_outbound_rejects_non_200_connect_response() {
    let (_, step) =
        ConnectResponse::new().received(b"HTTP/1.1 407 Proxy Authentication Required\r\n\r\n");
    let error = match step {
        Ok(_) => panic!("expected non-200 CONNECT response to fail"),
        Err(error) => error,
    };
    assert!(error.message.contains("407"));
}

#[test]
fn http_answers_that_make_no_sense_are_refused() {
    assert!(validate_connect_response(b"HTTP/1.1 200 OK").is_ok());
    assert!(validate_connect_response(b"HELLO 200 OK").is_err());
    assert!(validate_connect_response(b"").is_err());
    assert!(validate_connect_response(b"\xff").is_err());
}

#[test]
fn http_authorities_put_version_six_in_brackets() {
    let v6 = Endpoint::new(Host::Ip(IpAddress::V6([0; 16])), 80);
    assert_eq!(endpoint_authority(&v6, "::"), "[::]:80");
    let v4 = Endpoint::localhost_v4(80);
    assert_eq!(endpoint_authority(&v4, "127.0.0.1"), "127.0.0.1:80");
    let credentials = HttpProxyCredentials {
        username: "alice".to_string(),
        password: "secret".to_string(),
    };
    let request = connect_request(&v4, "127.0.0.1", &Some(credentials.clone()));
    assert!(request.contains("Proxy-Authorization: Basic YWxpY2U6c2VjcmV0\r\n"));
    let outbound = HttpProxyOutbound::new(v4).with_credentials(credentials);
    assert!(outbound.credentials.is_some());
    assert!(!outbound.open_datagram().message.is_empty());
}

#[test]
fn naive_proxies_are_given_the_name_and_password() {
    let outbound = NaiveOutbound::new("alice", "secret", Vec::new());
    assert!(outbound.options.negotiate_naive_padding);
    assert!(outbound
        .options
        .headers
        .iter()
        .any(|(_, value)| value == "Basic YWxpY2U6c2VjcmV0"));
    assert!(!outbound.open_datagram().message.is_empty());
}

#[test]
fn sockets_are_bound_in_the_family_of_their_target() {
    let any4 = Endpoint::new(Host::Ip(IpAddress::V4([0; 4])), 0);
    let any6 = Endpoint::new(Host::Ip(IpAddress::V6([0; 16])), 0);
    let v6 = Endpoint::new(Host::Ip(IpAddress::V6([1; 16])), 53);
    let domain = Endpoint::new(Host::domain("example.test"), 53);
    assert_eq!(bind_udp_for_target(&Endpoint::localhost_v4(53)), any4);
    assert_eq!(bind_udp_for_target(&v6), any6);
    assert_eq!(bind_udp_for_target(&domain), any4);
    assert_eq!(udp_bind_endpoint_for_target(&v6), any6);
}

#[test]
fn socks_datagrams_round_trip() {
    for target in [
        Endpoint::localhost_v4(53),
        Endpoint::new(Host::Ip(IpAddress::V6([1; 16])), 53),
        Endpoint::new(Host::domain("example.test"), 53),
    ] {
        let packet = encode_datagram(&target, b"ping").expect("packet");
        assert_eq!(&packet[..3], &[0, 0, 0]);
        assert_eq!(
            decode_datagram(&packet, 4).expect("datagram"),
            (b"ping".to_vec(), target)
        );
        assert_eq!(
            decode_datagram(&packet, 3).err().expect("room").message,
            "SOCKS5 UDP payload exceeds relay buffer"
        );
        let mut part = packet.clone();
        part[2] = 1;
        assert_eq!(
            decode_datagram(&part, 4).err().expect("part").message,
            "SOCKS5 UDP fragmentation is not supported"
        );
    }
    assert_eq!(
        decode_datagram(&[0, 0], 4).err().expect("short").kind,
        IoErrorKind::Other
    );
    let outbound = Socks5Outbound::new(Endpoint::localhost_v4(1080)).with_credentials(
        Socks5Credentials {
            username: "alice".to_string(),
            password: "secret".to_string(),
        },
    );
    assert!(outbound.credentials.is_some());
}

#[test]
fn request_header_matches_trojan_wire_shape() {
    let digest = Sha224::digest(b"secret");
    let mut password_hash = [0_u8; 56];
    encode_hex(&digest, &mut password_hash);
    let target = Endpoint::new(Host::domain("example.com"), 443);
    let header = build_header(&password_hash, CMD_CONNECT, &target).expect("header");
    assert_eq!(
        &header[..56],
        b"95c7fbca92ac5083afda62a564a3d014fc3b72c9140e3cb99ea6bf12"
    );
    assert_eq!(&header[56..59], b"\r\n\x01");
    assert_eq!(header[59], ATYP_DOMAIN);
    assert_eq!(header[60], 11);
    assert_eq!(&header[61..72], b"example.com");
    assert_eq!(&header[72..], b"\x01\xbb\r\n");
}

#[test]
fn rejects_overlong_domain() {
    let target = Endpoint::new(Host::domain(&"a".repeat(256)), 443);
    let error = build_header(&[b'0'; 56], CMD_CONNECT, &target).expect_err("must fail");
    assert!(error.message.contains("255"));
}

#[test]
fn reads_fragmented_udp_frame() {
    let source = Endpoint::new(Host::domain("dns.example"), 53);
    let mut datagram = TrojanDatagram::new();
    let mut frame = Vec::new();
    encode_endpoint(&mut frame, &source).unwrap();
    frame.extend_from_slice(b"\0\x04\r\npong");
    assert!(parse_frame(&frame[..3]).expect("short").is_none());
    datagram.received(&frame[..3]).unwrap();
    assert!(matches!(
        datagram.poll_recv_from(8),
        rustbox::outbound::trojan::RecvStep::Read
    ));
    datagram.received(&frame[3..]).unwrap();
    match datagram.poll_recv_from(8) {
        rustbox::outbound::trojan::RecvStep::Packet {
            payload,
            source: actual,
        } => {
            assert_eq!(actual, source);
            assert_eq!(payload, b"pong");
        }
        _ => panic!("the frame is whole"),
    }
}

#[test]
fn writes_addressed_udp_frame() {
    let target = Endpoint::localhost_v4(53);
    let mut datagram = TrojanDatagram::new();
    datagram.poll_send_to(b"ping", &target).unwrap();
    assert_eq!(
        datagram.write.next_bytes(),
        b"\x01\x7f\0\0\x01\0\x35\0\x04\r\nping"
    );
    assert_eq!(
        datagram.wrote(0).err().expect("closed").message,
        "write trojan UDP frame: stream closed"
    );
}

#[test]
fn frames_are_written_piece_by_piece() {
    let mut write = WriteState::begin(vec![1, 2, 3, 4], 2);
    write.wrote(3, "write").expect("three");
    assert_eq!(write.next_bytes(), vec![4]);
    write.wrote(1, "write").expect("one");
    assert!(matches!(write, WriteState::Flush { payload_len: 2 }));
    assert_eq!(write.flushed(), 2);
    assert!(matches!(write, WriteState::Idle));
    let mut write = WriteState::begin(vec![1], 1);
    assert_eq!(write.wrote(0, "write").err().expect("closed").kind, IoErrorKind::Closed);
}

#[test]
fn trojan_outbounds_ask_for_a_target() {
    let outbound = TrojanOutbound::new(
        Endpoint::localhost_v4(443),
        "localhost",
        "secret",
        TrojanTlsConfig::default(),
    )
    .ok()
    .expect("outbound");
    let header = outbound
        .connect(&Endpoint::new(Host::domain("example.com"), 443))
        .expect("header");
    assert!(header.starts_with(b"95c7fbca92ac5083afda62a564a3d014fc3b72c9140e3cb99ea6bf12\r\n\x01"));
    assert!(TrojanOutbound::new(
        Endpoint::localhost_v4(443),
        "localhost",
        "",
        TrojanTlsConfig::default(),
    )
    .is_err());
}

#[test]
fn packet_codec_round_trips_each_address_family() {
    let mut octets = [0; 16];
    octets[15] = 1;
    for endpoint in [
        Endpoint::new(Host::domain("example.test"), 53),
        Endpoint::new(Host::Ip(IpAddress::V4([192, 0, 2, 1])), 443),
        Endpoint::new(Host::Ip(IpAddress::V6(octets)), 80),
    ] {
        let mut bytes = Vec::new();
        encode_address(&endpoint, &mut bytes).unwrap();
        let (decoded, end) = decode_address(&bytes, 0).unwrap();
        assert_eq!(decoded, Some(endpoint));
        assert_eq!(end, bytes.len());
    }
}

#[test]
fn tuic_packets_are_cut_and_put_together() {
    let target = Endpoint::new(Host::domain("example.test"), 53);
    let packet: Vec<u8> = (0..2500_u32).map(|value| value as u8).collect();
    let mut sender = PacketSender::new(9);
    let datagrams = sender.send_udp_packets(&packet, &target);
    assert_eq!(datagrams.len(), 3);
    let mut reassembler = Reassembler::new();
    let mut delivered = None;
    for index in [2, 0, 1] {
        assert!(delivered.is_none());
        let decoded = decode_packet(&datagrams[index]).expect("packet");
        assert_eq!(decoded.total, 3);
        delivered = reassembler.dispatch_datagrams(decoded);
    }
    let delivered = delivered.expect("whole");
    assert_eq!(delivered.association, 9);
    assert_eq!(delivered.payload, packet);
    assert_eq!(delivered.source, target);
    assert!(decode_packet(&[5, 2]).is_err());
}

#[test]
fn tuic_commands_have_their_form() {
    let command = authenticate(&[1; 16], &[2; 32]);
    assert_eq!(&command[..2], &[5, 0]);
    assert_eq!(command.len(), 2 + 16 + 32);
    assert_eq!(dissociate(0x0102), vec![5, 3, 1, 2]);
    assert_eq!(heartbeat(), vec![5, 4]);
    let header = open_stream(&Endpoint::localhost_v4(80)).expect("header");
    assert_eq!(&header[..2], &[5, 1]);
    assert!(open_stream(&Endpoint::new(Host::domain(&"a".repeat(256)), 80)).is_err());
}

#[test]
fn tuic_associations_have_different_numbers() {
    let mut associations = Associations::new();
    let one = associations.open();
    let two = associations.open();
    assert_eq!((one, two), (1, 2));
    associations.close(one);
    associations.next = 0;
    assert_eq!(associations.open(), 1);
    let server = IpAddress::V4([192, 0, 2, 1]);
    assert!(matches!(
        associations.connection(true, &server),
        ConnectionStep::Reuse
    ));
    match associations.connection(false, &server) {
        ConnectionStep::Connect(bind) => {
            assert_eq!(bind, Endpoint::new(Host::Ip(IpAddress::V4([0; 4])), 0))
        }
        ConnectionStep::Reuse => panic!("there is no connection"),
    }
    assert!(associations.active.is_empty());
}

#[test]
fn tuic_outbounds_name_their_server() {
    let make = |password: &str, tls: TlsLayerConfig| {
        TuicOutbound::new(
            TuicConfig {
                server: Endpoint::new(Host::domain("tuic.test"), 443),
                uuid: [1; 16],
                password: password.to_string(),
                tls,
                heartbeat_millis: 10,
            },
            "tuic.test",
        )
    };
    let outbound = make("secret", TlsLayerConfig::default())
        .ok()
        .expect("outbound");
    assert_eq!(outbound.server_name, "tuic.test");
    assert_eq!(outbound.client.alpn, vec![b"h3".to_vec()]);
    assert_eq!(outbound.heartbeat_millis, 1000);
    assert_eq!(
        make("", TlsLayerConfig::default())
            .err()
            .expect("password")
            .message,
        "TUIC password must not be empty"
    );
    let half = TlsLayerConfig {
        client_certificate_pem: Some(Vec::new()),
        ..TlsLayerConfig::default()
    };
    assert_eq!(
        make("secret", half).err().expect("half").message,
        "TLS client certificate and key must be paired"
    );
}

#[test]
fn preserves_packet_boundaries_across_partial_stream_reads() {
    let target = Endpoint::localhost_v4(53);
    let mut datagram = VlessDatagram::new(target.clone());
    let stream = [0, 4, 1, 2, 3, 4];
    let mut at = 0;
    let (payload, source) = loop {
        match datagram.poll_recv_from(8) {
            rustbox::outbound::vless::RecvStep::Read(count) => {
                let piece = if at == 0 { 1 } else { count };
                datagram.received(&stream[at..at + piece]).unwrap();
                at += piece;
            }
            rustbox::outbound::vless::RecvStep::Packet { payload, source } => {
                break (payload, source)
            }
            rustbox::outbound::vless::RecvStep::Fail(error) => panic!("{}", error.message),
        }
    };
    assert_eq!(source, target);
    assert_eq!(payload, &[1, 2, 3, 4]);
}

#[test]
fn writes_length_prefixed_packet() {
    let target = Endpoint::localhost_v4(53);
    let mut datagram = VlessDatagram::new(target.clone());
    datagram.poll_send_to(b"ping", &target).unwrap();
    assert_eq!(datagram.write.next_bytes(), b"\0\x04ping");
    datagram.wrote(6).unwrap();
    assert_eq!(datagram.write.flushed(), 4);
}

#[test]
fn header_matches_upstream_vector() {
    let uuid = *uuid::Uuid::parse_str("b831381d-6324-4d53-ad4f-8cda48b30811")
        .unwrap()
        .as_bytes();
    let header = encode_request(
        &uuid,
        0x01,
        &Endpoint::new(Host::domain("example.com"), 80),
    )
    .unwrap();
    assert_eq!(header[0], 0);
    assert_eq!(&header[1..17], &uuid);
    assert_eq!(&header[17..22], &[0, 1, 0, 80, 2]);
    assert_eq!(header[22], 11);
    assert_eq!(&header[23..], b"example.com");
}

#[test]
fn response_state_survives_partial_reads() {
    let mut state = ResponseState::new();
    let stream = [0, 1, 0xaa, 0x42];
    let mut at = 0;
    while state.wanted() > 0 {
        state.poll_read(&stream[at..at + 1]).unwrap();
        at += 1;
    }
    assert!(matches!(state, ResponseState::Ready));
    assert_eq!(&stream[at..], [0x42]);
}

#[test]
fn vless_outbounds_check_their_identity() {
    let make = |uuid: &str, flow: Option<&str>| {
        VlessOutbound::new(
            Endpoint::localhost_v4(443),
            "localhost",
            uuid,
            flow,
            VlessTlsConfig::default(),
        )
    };
    let good = "b831381d-6324-4d53-ad4f-8cda48b30811";
    let outbound = make(good, None).ok().expect("outbound");
    assert_eq!(outbound.uuid[0], 0xb8);
    assert!(outbound
        .connect_with_command(&Endpoint::localhost_v4(80), COMMAND_STREAM)
        .is_ok());
    assert!(make("not-a-uuid", None).is_err());
    assert!(make(good, Some("")).is_ok());
    for flow in ["unknown-flow", "xtls-rprx-vision"] {
        assert_eq!(
            make(good, Some(flow)).err().expect("flow").message,
            format!("unsupported VLESS flow `{flow}`")
        );
    }
}

const ZERO_KEY: &str = "AAAAAAAAAAAAAAAAAAAAAAAAAAAAAAAAAAAAAAAAAAA=";

fn peer(allowed: IpCidr) -> WireGuardPeerConfig {
    WireGuardPeerConfig {
        server: Endpoint::localhost_v4(51820),
        public_key: ZERO_KEY.to_string(),
        pre_shared_key: None,
        allowed_ips: vec![allowed],
        persistent_keepalive_seconds: Some(0),
        reserved: [1, 2, 3],
    }
}

fn cidr(address: IpAddress, prefix_len: u8) -> IpCidr {
    IpCidr::new(address, prefix_len).expect("cidr")
}

fn tunnel() -> WireGuardConfig {
    WireGuardConfig {
        addresses: vec![cidr(IpAddress::V4([10, 0, 0, 2]), 24)],
        private_key: ZERO_KEY.to_string(),
        listen_port: 5,
        peers: vec![
            peer(cidr(IpAddress::V4([10, 0, 0, 0]), 8)),
            peer(cidr(IpAddress::V4([0, 0, 0, 0]), 0)),
        ],
        mtu: 100,
    }
}

#[test]
fn rejects_wrong_key_length() {
    let error = decode_key("key", "AA==").expect_err("invalid key");
    assert!(error.message.contains("32 bytes"));
}

#[test]
fn wireguard_configurations_are_checked() {
    let message = |config| {
        WireGuardOutbound::new(config)
            .err()
            .expect("refused")
            .message
    };
    let mut config = tunnel();
    config.addresses.clear();
    assert_eq!(
        message(config),
        "WireGuard endpoint requires at least one address"
    );
    let mut config = tunnel();
    config.peers.clear();
    assert_eq!(
        message(config),
        "WireGuard endpoint requires at least one peer"
    );
    let mut config = tunnel();
    config.private_key = "AA==".to_string();
    assert_eq!(
        message(config),
        "WireGuard private_key must decode to 32 bytes"
    );
    let mut config = tunnel();
    config.peers[1].public_key = "*".to_string();
    assert!(message(config).starts_with("WireGuard peer public_key: "));
    let mut config = tunnel();
    config.peers[1].pre_shared_key = Some(String::new());
    assert_eq!(
        message(config),
        "WireGuard peer pre_shared_key must decode to 32 bytes"
    );
    let mut config = tunnel();
    config.peers[0].allowed_ips.clear();
    assert_eq!(message(config), "WireGuard peer requires allowed_ips");
}

#[test]
fn wireguard_packets_go_to_the_first_peer_that_allows_them() {
    let outbound = WireGuardOutbound::new(tunnel()).ok().expect("outbound");
    assert_eq!(outbound.peer_for(&IpAddress::V4([10, 1, 2, 3])), Some(0));
    assert_eq!(outbound.peer_for(&IpAddress::V4([11, 1, 2, 3])), Some(1));
    assert_eq!(outbound.peer_for(&IpAddress::V6([1; 16])), None);
    let mut packet = vec![0_u8; 20];
    packet[0] = 0x45;
    packet[16..].copy_from_slice(&[10, 9, 9, 9]);
    assert_eq!(outbound.peer_of_packet(&packet), Some(0));
    assert_eq!(outbound.peer_of_packet(&packet[..19]), None);
}

#[test]
fn wireguard_destinations_are_those_of_the_tunnel() {
    for first in [0x45_u8, 0x60, 0x10] {
        for len in [0_usize, 1, 19, 20, 39, 40, 60] {
            let mut packet: Vec<u8> = (0..len).map(|value| value as u8).collect();
            if let Some(byte) = packet.first_mut() {
                *byte = first;
            }
            let expected = boringtun::noise::Tunn::dst_address(&packet)
                .map(|address| address.to_string());
            let found = destination_of(&packet).map(|address| match address {
                IpAddress::V4(octets) => format!(
                    "{}.{}.{}.{}",
                    octets[0], octets[1], octets[2], octets[3]
                ),
                IpAddress::V6(octets) => {
                    assert_eq!(&octets, &packet[24..40]);
                    boringtun::noise::Tunn::dst_address(&packet)
                        .expect("address")
                        .to_string()
                }
            });
            assert_eq!(found, expected);
        }
    }
}

#[test]
fn wireguard_connections_come_from_the_right_family() {
    let mut outbound = WireGuardOutbound::new(tunnel()).ok().expect("outbound");
    let remote = IpAddress::V4([192, 0, 2, 1]);
    let local = outbound.local_for(&remote).expect("local");
    assert_eq!(local, Endpoint::new(Host::Ip(IpAddress::V4([10, 0, 0, 2])), 30_000));
    assert_eq!(outbound.local_for(&remote).expect("local").port, 30_001);
    outbound.next_port = u16::MAX;
    assert_eq!(outbound.local_for(&remote).expect("local").port, u16::MAX);
    assert_eq!(outbound.local_for(&remote).expect("local").port, 1024);
    assert_eq!(
        outbound
            .local_for(&IpAddress::V6([1; 16]))
            .err()
            .expect("family")
            .message,
        "WireGuard endpoint has no address for target family"
    );
}

#[test]
fn wireguard_tunnels_are_made_of_their_configuration() {
    let outbound = WireGuardOutbound::new(tunnel()).ok().expect("outbound");
    let v4 = IpAddress::V4([192, 0, 2, 1]);
    let parts = outbound.channel(&vec![v4, v4]).ok().expect("parts");
    assert_eq!(parts.mtu, 1280);
    assert_eq!(parts.private_key, [0; 32]);
    assert_eq!(parts.bind, Endpoint::new(Host::Ip(IpAddress::V4([0; 4])), 5));
    assert_eq!(parts.peers[1].index, 2);
    assert_eq!(parts.peers[1].keepalive, Some(1));
    assert_eq!(
        outbound
            .channel(&vec![v4, IpAddress::V6([1; 16])])
            .err()
            .expect("families")
            .message,
        "WireGuard peers must currently use one endpoint address family"
    );
    assert_eq!(keepalive(Some(70_000)), Some(65_535));
    assert_eq!(keepalive(None), None);
    assert_eq!(bind_family(&vec![]).ok(), Some(false));
}

#[test]
fn wireguard_blocks_share_their_first_bits() {
    let block = cidr(IpAddress::V4([10, 128, 0, 0]), 9);
    assert!(cidr_contains(&block, &IpAddress::V4([10, 255, 1, 1])));
    assert!(!cidr_contains(&block, &IpAddress::V4([10, 127, 1, 1])));
    assert!(!cidr_contains(&block, &IpAddress::V6([10; 16])));
    assert!(cidr_contains(
        &cidr(IpAddress::V6([7; 16]), 128),
        &IpAddress::V6([7; 16])
    ));
    let wide = IpCidr {
        address: IpAddress::V4([10, 0, 0, 0]),
        prefix_len: 40,
    };
    assert!(!cidr_contains(&wide, &IpAddress::V4([10, 0, 0, 0])));
}

#[test]
fn wireguard_packets_carry_the_reserved_bytes() {
    let mut packet = vec![9, 9, 9, 9, 9];
    apply_reserved(&mut packet, [1, 2, 3]);
    assert_eq!(packet, vec![9, 1, 2, 3, 9]);
    let mut short = vec![9, 9, 9];
    apply_reserved(&mut short, [1, 2, 3]);
    assert_eq!(short, vec![9, 9, 9]);
    match tunnel_step(TunnelOutput::ToNetwork(vec![9; 4]), [1, 2, 3]) {
        TunnelStep::Send(packet) => assert_eq!(packet, vec![9, 1, 2, 3]),
        _ => panic!("the packet is sent"),
    }
    assert!(matches!(
        tunnel_step(TunnelOutput::Done, [0; 3]),
        TunnelStep::Stop
    ));
    let endpoints = vec![Endpoint::localhost_v4(1), Endpoint::localhost_v4(2)];
    assert_eq!(peer_at(&endpoints, &Endpoint::localhost_v4(2)), Some(1));
    assert_eq!(peer_at(&endpoints, &Endpoint::localhost_v4(3)), None);
}

#[test]
fn wireguard_sockets_say_what_failed() {
    let source = Endpoint::localhost_v4(1);
    assert!(poll_recv_from(Some(Ok((vec![1], source.clone()))), 1).is_ok());
    assert_eq!(
        poll_recv_from(Some(Ok((vec![1, 2], source))), 1)
            .err()
            .expect("room"),
        IoError::new(
            IoErrorKind::InvalidInput,
            "WireGuard UDP packet exceeds receive buffer"
        )
    );
    assert_eq!(
        poll_recv_from(None, 1).err().expect("closed").message,
        "WireGuard UDP socket closed"
    );
    assert_eq!(
        poll_send_to(&Endpoint::localhost_v4(7)).ok(),
        Some((IpAddress::V4([127, 0, 0, 1]), 7))
    );
    assert!(poll_send_to(&Endpoint::new(Host::domain("a.test"), 7)).is_err());
    assert_eq!(resolve_failed(Some("late")).message, "WireGuard DNS: late");
    assert_eq!(
        resolve_failed(None).message,
        "WireGuard DNS returned no address"
    );
    let told = StreamError::new(StreamErrorKind::ConnectionReset, "reset");
    assert_eq!(std_io_error(told).kind, IoErrorKind::Closed);
}

#[test]
fn direct_connections_are_reported() {
    let outbound = DirectOutbound::new("direct");
    let event = outbound.connecting(Some(3), "example.test:80");
    assert_eq!(
        event,
        Event {
            level: EventLevel::Debug,
            source: "rustbox.outbound.direct".to_string(),
            flow_id: Some(3),
            kind: EventKind::OutboundConnecting {
                outbound: "direct".to_string(),
                target: "example.test:80".to_string(),
            },
        }
    );
    let (event, result) = outbound.open_stream(None, "example.test:80", Ok(()));
    assert!(result.is_ok());
    assert_eq!(event.level, EventLevel::Info);
    let (event, result) =
        outbound.open_stream(None, "example.test:80", Err("refused".to_string()));
    assert_eq!(result.err().expect("failed").message, "refused");
    assert_eq!(event.level, EventLevel::Error);
    assert_eq!(
        event.kind,
        EventKind::OutboundFailed {
            outbound: "direct".to_string(),
            target: "example.test:80".to_string(),
            error: "refused".to_string(),
        }
    );
    assert_eq!(
        outbound.open_datagram(&Endpoint::localhost_v4(53)),
        Endpoint::new(Host::Ip(IpAddress::V4([0; 4])), 0)
    );
}

#[test]
fn services_report_their_name() {
    let events = ServiceEvents::new("rustbox.inbound.http", "http-connect", "one");
    assert_eq!(
        events.started("127.0.0.1:80").kind,
        EventKind::ServiceStarted {
            service: "http-connect/one@127.0.0.1:80".to_string()
        }
    );
    assert_eq!(
        events.stopped().kind,
        EventKind::ServiceStopped {
            service: "http-connect/one".to_string()
        }
    );
    assert_ne!(events.starting(), events.stopping());
    assert_eq!(
        events.invalid_request("HTTP CONNECT", "peer", "bad").kind,
        EventKind::Diagnostic("invalid HTTP CONNECT request from peer: bad".to_string())
    );
    assert_eq!(events.accepted("here", "peer").level, EventLevel::Debug);
    let tun = ServiceEvents::new("rustbox.inbound.tun", "tun", "7");
    assert_eq!(
        tun.stack_stopped("gone").kind,
        EventKind::Diagnostic("tun/7 stack stopped: gone".to_string())
    );
    let stack = ServiceEvents::new("rustbox.stack.packet", "packet-stack", "7");
    assert_eq!(
        stack.running().kind,
        EventKind::ServiceStarted {
            service: "packet-stack/7".to_string()
        }
    );
    assert_eq!(
        stack.packet_dropped("odd").kind,
        EventKind::Diagnostic("packet drop: odd".to_string())
    );
    assert_eq!(
        stack.dispatch_failed("full").kind,
        EventKind::Diagnostic("TUN flow dispatch failed: full".to_string())
    );
    assert_eq!(stack.echo_failed("late").level, EventLevel::Debug);
    let transparent = ServiceEvents::new("rustbox.inbound.transparent", "transparent", "7");
    assert_eq!(
        transparent.accept_failed("here", "gone").kind,
        EventKind::Diagnostic("transparent accept failed on here: gone".to_string())
    );
}
