use base64::Engine;
use rustbox::transport::config::{TlsLayerConfig, TransportError};
use rustbox::transport::h2_tunnel::{
    append_headers, check_capacity, encode_padded, open_tunnel, pad_frame, random_padding_header,
    AfterFailure, H2TunnelOptions, PaddingDecoder, PaddingEncoder, TunnelAttempts, FIRST_PADDINGS,
};
use rustbox::transport::layered::{
    check_pins, rustls_client_config, verify_server_cert, KeyFormat, LayeredTransport, PinFault,
    TlsLayer,
};
use rustbox::transport::mux_cool::{
    association_closed, carrier_failed, carrier_target, data_frame, datagram_frame, new_datagram_frame, new_frame, read_frame,
    receive_datagram, sender_closed, simple_frame, Acquire, Delivery, FrameScan, MuxCoolConfig, MuxCoolPool,
    MuxSession, OpenReply, Substream, DATA, END, KEEP, NEW,
};
use rustbox::transport::shadow_tls::{
    download, handshake_step, record_length, sign_client_hello, upload, Handshake, HandshakeStep,
    ShadowHmac, ShadowTlsTransport,
};
use rustbox::types::{Endpoint, Host};
use sha2::{Digest, Sha256};

#[test]
fn padding_decoder_handles_split_and_coalesced_frames() {
    let mut decoder = PaddingDecoder::new(true);
    let mut encoded = Vec::new();
    for index in 0..FIRST_PADDINGS {
        encoded.extend_from_slice(&encode_padded(&[index as u8]));
    }
    encoded.extend_from_slice(b"plain");
    let split = encoded.len() / 2;
    let mut output = decoder.push(&encoded[..split]);
    output.extend_from_slice(&decoder.push(&encoded[split..]));
    decoder.finish().unwrap();
    assert_eq!(
        output,
        [0, 1, 2, 3, 4, 5, 6, 7]
            .into_iter()
            .chain(*b"plain")
            .collect::<Vec<_>>()
    );
}

#[test]
fn padded_frames_name_their_lengths() {
    assert_eq!(
        pad_frame(b"hi", 3),
        vec![0, 2, 3, b'h', b'i', 0, 0, 0]
    );
    let mut encoder = PaddingEncoder::new(true);
    let mut decoder = PaddingDecoder::new(true);
    let mut output = Vec::new();
    for index in 0..12_u8 {
        let frame = encoder.encode(&[index], 5);
        assert_eq!(frame.len() > 1, (index as usize) < FIRST_PADDINGS);
        output.extend_from_slice(&decoder.push(&frame));
    }
    assert_eq!(output, (0..12).collect::<Vec<u8>>());
    assert!(decoder.finish().is_ok());
    let mut cut = PaddingDecoder::new(true);
    assert!(cut.push(&[0, 2]).is_empty());
    assert!(cut.finish().is_err());
    let mut plain = PaddingDecoder::new(false);
    assert_eq!(plain.push(b"as it is"), b"as it is");
}

#[test]
fn tunnels_are_open_on_success_alone() {
    let options = H2TunnelOptions {
        headers: Vec::new(),
        negotiate_naive_padding: true,
    };
    assert_eq!(open_tunnel(200, "200 OK", true, &options).ok(), Some(true));
    assert_eq!(open_tunnel(200, "200 OK", false, &options).ok(), Some(false));
    assert!(open_tunnel(403, "403 Forbidden", true, &options)
        .err()
        .expect("refused")
        .message
        .contains("403 Forbidden"));
    assert!(check_capacity(4, 4).is_ok());
    assert!(check_capacity(0, 4).is_err());
    let header = random_padding_header(16, 32);
    assert!((16..=32).contains(&header.len()));
    let mut attempts = TunnelAttempts::new();
    assert_eq!(
        attempts.failed("HTTP/2 CONNECT failed"),
        AfterFailure::TryNewSession
    );
    assert_eq!(attempts.failed("HTTP/2 CONNECT failed"), AfterFailure::Report);
    assert_eq!(
        TunnelAttempts::new().failed("proxy refused"),
        AfterFailure::DropSession
    );
}

#[test]
fn configured_headers_are_checked() {
    let mut headers = Vec::new();
    let pair = |name: &str, value: &str| vec![(name.to_string(), value.to_string())];
    assert!(append_headers(&mut headers, &pair("x-name", "value")).is_ok());
    assert_eq!(headers.len(), 1);
    assert!(append_headers(&mut headers, &pair("bad name", "value")).is_err());
    assert!(append_headers(&mut headers, &pair("x-name", "bad\nvalue")).is_err());
}

#[test]
fn new_frame_contains_target() {
    let frame = new_frame(7, &Endpoint::new(Host::domain("example.com"), 443)).unwrap();
    assert_eq!(&frame[2..4], &7_u16.to_be_bytes());
    assert!(frame.ends_with(b"example.com"));
}

#[test]
fn datagram_frames_carry_network_target_and_global_id() {
    let target = Endpoint::new(Host::domain("dns.example"), 53);
    let frame = new_datagram_frame(9, &target, 42).unwrap();
    let metadata_length = u16::from_be_bytes([frame[0], frame[1]]) as usize;
    let metadata = &frame[2..2 + metadata_length];
    assert_eq!(&metadata[..5], &[0, 9, NEW, 0, 2]);
    assert_eq!(&metadata[metadata.len() - 8..], &42_u64.to_be_bytes());

    let keep = datagram_frame(9, &target, b"query").unwrap();
    assert_eq!(keep[4], KEEP);
    assert_eq!(keep[5], DATA);
    assert!(keep.ends_with(b"query"));
}

#[test]
fn mux_frames_round_trip() {
    let frame = data_frame(3, b"payload");
    match read_frame(&frame) {
        FrameScan::Found(found, taken) => {
            assert_eq!((found.id, found.status), (3, KEEP));
            assert_eq!(found.payload, b"payload");
            assert_eq!(taken, frame.len());
        }
        _ => panic!("the frame is whole"),
    }
    assert!(matches!(read_frame(&frame[..5]), FrameScan::Short));
    match read_frame(&simple_frame(3, END)) {
        FrameScan::Found(found, _) => assert_eq!(found.status, END),
        _ => panic!("the frame is whole"),
    }
    let target = Endpoint::localhost_v4(53);
    let frame = datagram_frame(4, &target, b"query").unwrap();
    match read_frame(&frame) {
        FrameScan::Found(found, _) => {
            assert_eq!(found.target, Some(target));
            assert_eq!(found.payload, b"query");
        }
        _ => panic!("the frame is whole"),
    }
}

#[test]
fn mux_sessions_deliver_by_number() {
    let mut session = MuxSession::new(2);
    let target = Endpoint::localhost_v4(80);
    assert!(session.open(1, &target).is_ok());
    session.opened(1, Substream::Stream, true).expect("opened");
    let frame = match read_frame(&data_frame(1, b"hello")) {
        FrameScan::Found(frame, _) => frame,
        _ => panic!("the frame is whole"),
    };
    match session.deliver(&frame) {
        Delivery::Stream(bytes) => assert_eq!(bytes, b"hello"),
        _ => panic!("the stream is open"),
    }
    let (end, _) = session.end(1);
    assert_eq!(end, simple_frame(1, END));
    assert!(matches!(session.deliver(&frame), Delivery::Nothing));
    assert!(receive_datagram(vec![1, 2], target.clone(), 2).is_ok());
    assert!(receive_datagram(vec![1, 2], target, 1).is_err());
}

#[test]
fn pool_opens_another_carrier_when_stream_capacity_is_full() {
    assert_eq!(carrier_target().host, Host::domain("v1.mux.cool"));
    let mut pool = MuxCoolPool::new(MuxCoolConfig {
        max_streams: 1,
        max_connections: 2,
        ..MuxCoolConfig::default()
    });
    assert!(matches!(pool.acquire_session(), Ok(Acquire::Dial)));
    pool.add_session(10);
    pool.sessions[0].active = 1;
    assert!(matches!(pool.acquire_session(), Ok(Acquire::Dial)));
    pool.add_session(11);
    pool.sessions[1].active = 1;
    assert!(pool.acquire_session().is_err());
    pool.sessions[0].active = 0;
    assert!(matches!(pool.acquire_session(), Ok(Acquire::Reuse(10))));
    assert_ne!(pool.take_id(), pool.take_id());
    assert_ne!(pool.take_global_id(), pool.take_global_id());
}

#[test]
fn requests_that_fail_do_not_count() {
    let mut pool = MuxCoolPool::new(MuxCoolConfig::default());
    pool.add_session(7);
    assert!(matches!(pool.acquire_session(), Ok(Acquire::Reuse(7))));
    assert_eq!(pool.sessions[0].active, 2);
    let refused = OpenReply::Refused(TransportError::new("full"));
    assert_eq!(pool.open(7, refused).err().expect("refused").message, "full");
    assert_eq!(pool.sessions[0].active, 1);
    assert!(pool.open(7, OpenReply::Accepted).is_ok());
    assert_eq!(pool.sessions[0].active, 1);
    assert!(matches!(pool.acquire_session(), Ok(Acquire::Reuse(7))));
    assert_eq!(
        pool.open_datagram(7, OpenReply::Lost)
            .err()
            .expect("lost")
            .message,
        "Mux.Cool session closed during UDP open"
    );
    assert!(matches!(pool.acquire_session(), Ok(Acquire::Reuse(7))));
    assert_eq!(
        pool.open(7, OpenReply::Lost).err().expect("lost").message,
        "Mux.Cool session closed during open"
    );
    assert!(matches!(pool.acquire_session(), Ok(Acquire::Reuse(7))));
    assert_eq!(
        pool.open(7, OpenReply::NotAsked)
            .err()
            .expect("over")
            .message,
        "Mux.Cool session closed"
    );
    pool.release(7);
    assert_eq!(pool.sessions[0].active, 0);
    pool.close(7);
    assert!(matches!(pool.acquire_session(), Ok(Acquire::Dial)));
    assert!(pool.sessions.is_empty());
    assert_eq!(carrier_failed("late").message, "Mux.Cool carrier: late");
    assert_ne!(association_closed().message, sender_closed().message);
}

#[test]
fn record_hmac_is_chained() {
    let mut hmac = ShadowHmac::new("password", &[7; 32], b"C");
    hmac.update(b"payload");
    let first = hmac.finalize4();
    hmac.update(&first);
    assert_ne!(first, hmac.finalize4());
}

#[test]
fn shadow_records_round_trip() {
    let mut out = ShadowHmac::new("password", &[7; 32], b"C");
    let mut inbound = ShadowHmac::new("password", &[7; 32], b"C");
    let mut none = None;
    for payload in [b"one".to_vec(), b"two".to_vec()] {
        let record = upload(&mut out, &payload);
        assert_eq!(record[0], 0x17);
        let header: [u8; 5] = record[..5].try_into().unwrap();
        assert_eq!(record_length(&header), record.len());
        assert_eq!(
            download(&record, &mut inbound, &mut none).expect("record"),
            Some(payload)
        );
    }
    let mut forged = upload(&mut out, b"three");
    let last = forged.len() - 1;
    forged[last] ^= 1;
    assert!(download(&forged, &mut inbound, &mut none).is_err());
}

#[test]
fn shadow_handshakes_need_the_server() {
    assert!(matches!(
        handshake_step(true, true, false),
        HandshakeStep::WriteSigned
    ));
    assert!(matches!(
        handshake_step(true, false, true),
        HandshakeStep::Read
    ));
    assert!(matches!(
        handshake_step(false, false, false),
        HandshakeStep::Finish
    ));
    assert!(Handshake::new().finish(true).is_err());
    let mut cut = vec![0x16, 3, 1, 0, 4, 1, 0, 0];
    assert_eq!(
        sign_client_hello(&mut cut, "password")
            .err()
            .expect("cut")
            .message,
        "truncated TLS ClientHello"
    );
    let mut other = vec![0x14, 3, 1, 0, 1, 1];
    assert!(sign_client_hello(&mut other, "password").is_ok());
    assert_eq!(other, vec![0x14, 3, 1, 0, 1, 1]);
    let transport = ShadowTlsTransport::new(
        Endpoint::localhost_v4(443),
        "password".to_string(),
        TlsLayerConfig {
            enabled: true,
            server_name: Some("cover.example".to_string()),
            ..TlsLayerConfig::default()
        },
    )
    .ok()
    .expect("transport");
    assert_eq!(transport.server_name().expect("name"), "cover.example");
}

const CERTIFICATE: &str = "MIIBfjCCASOgAwIBAgIURrU0k5v6gPYm4Uv5/tbXngdjs0MwCgYIKoZIzj0EAwIwFDESMBAGA1UEAwwJbG9jYWxob3N0MB4XDTI2MTExNjE3MjQwNloXDTM2MTExMzE3MjQwNlowFDESMBAGA1UEAwwJbG9jYWxob3N0MFkwEwYHKoZIzj0CAQYIKoZIzj0DAQcDQgAEfbmIUzrFYewAoGJTqSO8YA6RyDPKCNb9LrWh2iZ1ZVcch/ICJ4HxdB/uA9dHyOa+8uAQcAy9FdsmE3Ae3FYrl6NTMFEwHQYDVR0OBBYEFOVS5YElZ49M/1yxZQ4v9sgtNyvvMB8GA1UdIwQYMBaAFOVS5YElZ49M/1yxZQ4v9sgtNyvvMA8GA1UdEwEB/wQFMAMBAf8wCgYIKoZIzj0EAwIDSQAwRgIhAOD0c+yVyHfK0skBSkvuoldG7XjreAbK0JDvW4bxHUUxAiEApBO6Tcfuku49UzUGPwo9CWhEqP2d4SFQuUCQwt6TBrk=";
const PUBLIC_KEY: &str = "MFkwEwYHKoZIzj0CAQYIKoZIzj0DAQcDQgAEfbmIUzrFYewAoGJTqSO8YA6RyDPKCNb9LrWh2iZ1ZVcch/ICJ4HxdB/uA9dHyOa+8uAQcAy9FdsmE3Ae3FYrlw==";

// Test keys, made for these tests alone.
const KEY: &str = "MIGHAgEAMBMGByqGSM49AgEGCCqGSM49AwEHBG0wawIBAQQgjnaLHpi7JHDUOG9+FUzgqpJuxKJqoJoG2KraqQFPCE2hRANCAAR9uYhTOsVh7ACgYlOpI7xgDpHIM8oI1v0utaHaJnVlVxyH8gIngfF0H+4D10fI5r7y4BBwDL0V2yYTcB7cViuX";
const SEC1_KEY: &str = "MHcCAQEEII52ix6YuyRw1DhvfhVM4KqSbsSiaqCaBtiq2qkBTwhNoAoGCCqGSM49AwEHoUQDQgAEfbmIUzrFYewAoGJTqSO8YA6RyDPKCNb9LrWh2iZ1ZVcch/ICJ4HxdB/uA9dHyOa+8uAQcAy9FdsmE3Ae3FYrlw==";
const OTHER_KEY: &str = "MIGHAgEAMBMGByqGSM49AgEGCCqGSM49AwEHBG0wawIBAQQghLFWMW6tk7Koz3Om5qQ3evR8ugQYv8x0/xuUqnv8KGShRANCAAQzHNlXq0xGAvpQ3QcZNCuOgk6ZB30ZXlLUlIv8aJD8DVfOk+y4OvKTxvfPO3ghBPxpfjFjra8yJxZ4Bz0ZaaAi";

fn bytes(text: &str) -> Vec<u8> {
    base64::engine::general_purpose::STANDARD
        .decode(text)
        .expect("bytes")
}

fn pem(label: &str, body: &str) -> Vec<u8> {
    let mut out = format!("-----BEGIN {label}-----\n");
    for line in body.as_bytes().chunks(64) {
        out.push_str(std::str::from_utf8(line).expect("line"));
        out.push('\n');
    }
    out.push_str(&format!("-----END {label}-----\n"));
    out.into_bytes()
}

fn pin() -> [u8; 32] {
    Sha256::digest(bytes(PUBLIC_KEY)).into()
}

#[test]
fn spki_pin_accepts_matching_key_and_rejects_wrong_key() {
    let certificate = bytes(CERTIFICATE);
    assert!(verify_server_cert(&certificate, &vec![pin()]).is_ok());
    let error = verify_server_cert(&certificate, &vec![[0x55; 32]])
        .err()
        .expect("wrong SPKI pin was accepted");
    assert!(error.message().contains("SubjectPublicKeyInfo"));
    assert!(verify_server_cert(&certificate, &Vec::new()).is_ok());
    assert!(matches!(
        verify_server_cert(b"no certificate", &Vec::new()),
        Err(PinFault::BadEncoding)
    ));
    assert!(check_pins(&Some(bytes(PUBLIC_KEY)), &vec![[1; 32], pin()]).is_ok());
    assert!(matches!(
        check_pins(&None, &vec![pin()]),
        Err(PinFault::BadEncoding)
    ));
}

fn identified(key_label: &str, key: &str) -> TlsLayerConfig {
    TlsLayerConfig {
        enabled: true,
        server_name: Some("localhost".to_string()),
        alpn: vec!["h2".to_string()],
        client_certificate_pem: Some(pem("CERTIFICATE", CERTIFICATE)),
        client_private_key_pem: Some(pem(key_label, key)),
        ..TlsLayerConfig::default()
    }
}

#[test]
fn tls_clients_are_built_from_their_configuration() {
    let parts = rustls_client_config(&identified("PRIVATE KEY", KEY))
        .ok()
        .expect("parts");
    assert!(parts.verify_chain);
    assert_eq!(parts.alpn, vec![b"h2".to_vec()]);
    assert!(parts.authorities.is_empty());
    assert!(parts.pins.is_empty());
    assert!(parts.ech.is_none());
    let (certificates, key) = parts.identity.expect("identity");
    assert_eq!(certificates, vec![bytes(CERTIFICATE)]);
    assert_eq!(key.format, KeyFormat::Pkcs8);
    assert_eq!(key.der, bytes(KEY));
    let sec1 = rustls_client_config(&identified("EC PRIVATE KEY", SEC1_KEY))
        .ok()
        .expect("parts");
    assert_eq!(sec1.identity.expect("identity").1.format, KeyFormat::Sec1);
}

#[test]
fn tls_clients_carry_authorities_and_pins() {
    let config = TlsLayerConfig {
        enabled: true,
        server_name: Some("server.test".to_string()),
        insecure: true,
        certificate_authorities_der: vec![bytes(CERTIFICATE), bytes(CERTIFICATE)],
        public_key_pins: vec![[3; 32], [4; 32]],
        ..TlsLayerConfig::default()
    };
    let layers = LayeredTransport::new(Some(config), None, false)
        .ok()
        .expect("layers");
    let (parts, name) = match layers.tls {
        TlsLayer::Pinned(parts, name) => (parts, name),
        _ => panic!("the layer is pinned"),
    };
    assert_eq!(name, "server.test");
    assert!(!parts.verify_chain);
    assert_eq!(parts.authorities, vec![bytes(CERTIFICATE), bytes(CERTIFICATE)]);
    assert_eq!(parts.pins, vec![[3; 32], [4; 32]]);
    assert!(parts.ech.is_none());
}

#[test]
fn tls_clients_carry_the_ech_list() {
    let mut contents = vec![7, 0, 0x20, 0, 32];
    contents.extend_from_slice(&[9; 32]);
    contents.extend_from_slice(&[0, 4, 0, 1, 0, 1, 0, 11]);
    contents.extend_from_slice(b"public.test");
    contents.extend_from_slice(&[0, 0]);
    let length = contents.len() as u8;
    let mut list = vec![0, length + 4, 0xfe, 0x0d, 0, length];
    list.extend_from_slice(&contents);
    let parts = rustls_client_config(&TlsLayerConfig {
        ech_config: Some(list.clone()),
        ..TlsLayerConfig::default()
    })
    .ok()
    .expect("parts");
    assert_eq!(parts.ech, Some(list));
}

#[test]
fn tls_configurations_are_checked() {
    let message = |config: &TlsLayerConfig| {
        rustls_client_config(config)
            .err()
            .expect("refused")
            .message
    };
    assert!(
        message(&identified("PRIVATE KEY", OTHER_KEY)).starts_with("TLS client identity: ")
    );
    let mut config = identified("PRIVATE KEY", KEY);
    config.client_private_key_pem = None;
    assert_eq!(
        message(&config),
        "TLS client certificate and key must be paired"
    );
    config.client_private_key_pem = Some(Vec::new());
    assert_eq!(message(&config), "TLS client private key PEM is empty");
    config.client_certificate_pem =
        Some(b"-----BEGIN CERTIFICATE-----\n*\n-----END CERTIFICATE-----\n".to_vec());
    assert!(message(&config).starts_with("TLS client certificate: "));
    config.ech_config = Some(vec![1, 2, 3]);
    assert!(message(&config).starts_with("TLS ECH config: "));
    config.certificate_authorities_der = vec![b"none".to_vec()];
    assert!(message(&config).starts_with("TLS CA certificate: "));
    config.certificate_authorities_der = vec![bytes(CERTIFICATE)];
    assert!(message(&config).starts_with("TLS ECH config: "));
}

#[test]
fn layers_are_plain_without_tls() {
    let plain = LayeredTransport::new(None, None, false).ok().expect("plain");
    assert!(matches!(plain.tls, TlsLayer::Plain));
    let shaped = LayeredTransport::new(Some(identified("PRIVATE KEY", KEY)), None, false)
        .ok()
        .expect("shaped");
    assert!(matches!(shaped.tls, TlsLayer::Shaped(_)));
    let mut config = identified("PRIVATE KEY", KEY);
    config.public_key_pins = vec![pin()];
    let pinned = LayeredTransport::new(Some(config.clone()), None, false)
        .ok()
        .expect("pinned");
    match pinned.tls {
        TlsLayer::Pinned(_, name) => assert_eq!(name, "localhost"),
        _ => panic!("the layer is pinned"),
    }
    config.server_name = None;
    assert_eq!(
        LayeredTransport::new(Some(config.clone()), None, false)
            .err()
            .expect("no name")
            .message,
        "TLS pinning requires server_name"
    );
    config.server_name = Some("not a name".to_string());
    assert!(LayeredTransport::new(Some(config), None, false)
        .err()
        .expect("bad name")
        .message
        .starts_with("TLS server_name: "));
}

fn whole_frame(bytes: &[u8]) -> rustbox::transport::mux_cool::Frame {
    match read_frame(bytes) {
        FrameScan::Found(frame, taken) => {
            assert_eq!(taken, bytes.len());
            frame
        }
        _ => panic!("the frame is whole"),
    }
}

#[test]
fn pool_multiplexes_two_streams_on_one_carrier() {
    let mut pool = MuxCoolPool::new(MuxCoolConfig::default());
    let mut session = MuxSession::new(pool.config.max_streams);
    let mut connections = 0;
    for payload in [b"first".as_slice(), b"second".as_slice()] {
        let token = match pool.acquire_session().expect("session") {
            Acquire::Reuse(token) => token,
            Acquire::Dial => {
                connections += 1;
                pool.add_session(1);
                1
            }
        };
        let id = pool.take_id();
        assert!(session.open(id, &Endpoint::localhost_v4(80)).is_ok());
        session.opened(id, Substream::Stream, true).expect("opened");
        pool.open(token, OpenReply::Accepted).expect("open");
        let sent = whole_frame(&data_frame(id, payload));
        let answer = whole_frame(&data_frame(sent.id, &sent.payload));
        match session.deliver(&answer) {
            Delivery::Stream(echoed) => assert_eq!(echoed, payload),
            _ => panic!("the stream is open"),
        }
    }
    assert_eq!(connections, 1);
    assert_eq!(pool.sessions[0].active, 2);
}

#[test]
fn pool_relays_xudp_packets_with_per_packet_targets() {
    let mut pool = MuxCoolPool::new(MuxCoolConfig::default());
    let mut session = MuxSession::new(pool.config.max_streams);
    pool.add_session(1);
    let id = pool.take_id();
    let global_id = pool.take_global_id();
    let first = Endpoint::new(Host::domain("dns.example"), 53);
    let opening = session.open_datagram(id, &first, global_id).expect("frame");
    assert_eq!(opening[2 + 4], 2);
    session
        .opened(id, Substream::Datagram, true)
        .expect("opened");
    let target = Endpoint::new(Host::domain("other.example"), 53);
    let keep = datagram_frame(id, &target, b"query").expect("frame");
    assert_eq!(keep[2 + 2], KEEP);
    assert_eq!(keep[2 + 4], 2);
    let sent = whole_frame(&keep);
    assert_eq!(sent.target, Some(target));
    let source = Endpoint::new(Host::domain("response.example"), 5353);
    let answer = whole_frame(&datagram_frame(sent.id, &source, &sent.payload).expect("frame"));
    match session.deliver(&answer) {
        Delivery::Datagram(packet, from) => {
            let (packet, from) = receive_datagram(packet, from, 64).expect("room");
            assert_eq!(packet, b"query");
            assert_eq!(
                from,
                Endpoint::new(Host::domain("response.example"), 5353)
            );
        }
        _ => panic!("the association is open"),
    }
}
