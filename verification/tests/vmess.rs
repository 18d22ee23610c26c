use aes_gcm::aead::{Aead, KeyInit, Payload};
use aes_gcm::{Aes128Gcm, Nonce};
use rustbox::outbound::frame_writer::WriteState;
use rustbox::outbound::vmess::datagram::{ReadStage, RecvStep, VmessDatagram};
use rustbox::outbound::vmess::header::{
    auto_security, build_auth_id, build_header_plaintext, cmd_key, encode_address, fnv1a32,
    seal_request_header, seal_with, HeaderDraw, HeaderPadding, Metadata, Security, ADDR_DOMAIN,
    ADDR_IPV6,
};
use rustbox::outbound::vmess::kdf::{kdf, kdf12, kdf16};
use rustbox::outbound::vmess::outbound::{config_error, tls_parts, VmessOutbound};
use rustbox::transport::config::TlsLayerConfig;
use rustbox::types::{Endpoint, Host, IpAddress};

#[test]
fn cmd_key_is_deterministic() {
    let uuid: [u8; 16] = [
        0xb8, 0x31, 0x38, 0x1d, 0x63, 0x24, 0x4d, 0x53, 0xad, 0x4f, 0x8c, 0xda, 0x48, 0xb3, 0x08,
        0x11,
    ];
    let k1 = cmd_key(&uuid);
    let k2 = cmd_key(&uuid);
    assert_eq!(k1, k2);
    assert_ne!(k1, [0u8; 16]);
}

#[test]
fn fnv1a_known_value() {
    assert_eq!(fnv1a32(b""), 0x811c_9dc5);
    assert_eq!(fnv1a32(b"a"), 0xe40c_292c);
}

#[test]
fn address_encode_ipv4() {
    let meta = Metadata {
        dst_ip: Some(IpAddress::V4([127, 0, 0, 1])),
        dst_port: 443,
        ..Default::default()
    };
    let mut buf = Vec::new();
    encode_address(&mut buf, &meta).unwrap();
    assert_eq!(buf, vec![0x01, 127, 0, 0, 1]);
}

#[test]
fn address_encode_domain() {
    let meta = Metadata {
        host: "example.com".into(),
        dst_port: 80,
        ..Default::default()
    };
    let mut buf = Vec::new();
    encode_address(&mut buf, &meta).unwrap();
    assert_eq!(buf[0], 0x02);
    assert_eq!(buf[1], 11);
    assert_eq!(&buf[2..], b"example.com");
}

#[test]
fn address_encode_domain_too_long() {
    let long = "a".repeat(256);
    let meta = Metadata {
        host: long,
        dst_port: 80,
        ..Default::default()
    };
    let mut buf = Vec::new();
    assert!(encode_address(&mut buf, &meta).is_err());
}

#[test]
fn security_nibble_values() {
    assert_eq!(Security::Aes128Gcm.to_nibble(), 0x03);
    assert_eq!(Security::ChaCha20Poly1305.to_nibble(), 0x04);
    assert_eq!(Security::Plain.to_nibble(), 0x05);
}

#[test]
fn address_encode_ipv6() {
    let mut octets = [0; 16];
    octets[15] = 1;
    let meta = Metadata {
        dst_ip: Some(IpAddress::V6(octets)),
        dst_port: 443,
        ..Default::default()
    };
    let mut buf = Vec::new();
    encode_address(&mut buf, &meta).unwrap();
    assert_eq!(buf[0], ADDR_IPV6);
    assert_eq!(buf.len(), 1 + 16);
}

#[test]
fn address_encode_domain_max_255_ok() {
    let domain = "a".repeat(255);
    let meta = Metadata {
        host: domain,
        dst_port: 80,
        ..Default::default()
    };
    let mut buf = Vec::new();
    encode_address(&mut buf, &meta).unwrap();
    assert_eq!(buf[0], ADDR_DOMAIN);
    assert_eq!(buf[1], 255);
    assert_eq!(buf.len(), 2 + 255);
}

#[test]
fn address_encode_no_destination_errors() {
    let meta = Metadata {
        dst_port: 80,
        ..Default::default()
    };
    let mut buf = Vec::new();
    assert!(encode_address(&mut buf, &meta).is_err());
}

#[test]
fn address_encode_domain_idn_not_punycoded() {
    let meta = Metadata {
        host: "例え.jp".into(),
        dst_port: 80,
        ..Default::default()
    };
    let mut buf = Vec::new();
    encode_address(&mut buf, &meta).unwrap();
    assert_eq!(buf[0], ADDR_DOMAIN);
    assert_eq!(&buf[2..], "例え.jp".as_bytes());
}

#[test]
fn address_domain_prefers_host_over_ip() {
    let meta = Metadata {
        host: "example.com".into(),
        dst_ip: Some(IpAddress::V4([1, 2, 3, 4])),
        dst_port: 443,
    };
    let mut buf = Vec::new();
    encode_address(&mut buf, &meta).unwrap();
    assert_eq!(buf[0], ADDR_DOMAIN, "domain must take priority over IP");
}

#[test]
fn seal_request_header_produces_valid_structure() {
    let uuid: [u8; 16] = [
        0xb8, 0x31, 0x38, 0x1d, 0x63, 0x24, 0x4d, 0x53, 0xad, 0x4f, 0x8c, 0xda, 0x48, 0xb3, 0x08,
        0x11,
    ];
    let ck = cmd_key(&uuid);
    let meta = Metadata {
        host: "example.com".into(),
        dst_port: 443,
        ..Default::default()
    };
    let sealed = seal_request_header(&ck, Security::Aes128Gcm, &meta, false).unwrap();

    assert!(sealed.bytes.len() >= 16 + 8 + 18 + 16, "header too short");
    assert_ne!(sealed.req_key, [0u8; 16], "req_key must be random");
    assert_ne!(sealed.req_iv, [0u8; 16], "req_iv must be random");

    let auth_id: [u8; 16] = sealed.bytes[..16].try_into().unwrap();
    let conn_nonce: [u8; 8] = sealed.bytes[34..42].try_into().unwrap();
    let length_key = kdf16(
        &ck,
        &[b"VMess Header AEAD Key_Length", &auth_id, &conn_nonce],
    );
    let length_iv = kdf12(
        &ck,
        &[b"VMess Header AEAD Nonce_Length", &auth_id, &conn_nonce],
    );
    let length_cipher = Aes128Gcm::new_from_slice(&length_key).unwrap();
    let encoded_length = length_cipher
        .decrypt(
            Nonce::from_slice(&length_iv),
            Payload {
                msg: &sealed.bytes[16..34],
                aad: &auth_id,
            },
        )
        .unwrap();
    let plaintext_length = u16::from_be_bytes(encoded_length.try_into().unwrap()) as usize;
    let encrypted_header_length = sealed.bytes.len() - 42;
    assert_eq!(plaintext_length + 16, encrypted_header_length);
}

#[test]
fn seal_request_header_unique_per_call() {
    let uuid: [u8; 16] = [0x01; 16];
    let ck = cmd_key(&uuid);
    let meta = Metadata {
        host: "test.com".into(),
        dst_port: 80,
        ..Default::default()
    };
    let h1 = seal_request_header(&ck, Security::Aes128Gcm, &meta, false).unwrap();
    let h2 = seal_request_header(&ck, Security::Aes128Gcm, &meta, false).unwrap();
    assert_ne!(h1.bytes, h2.bytes, "each header must use fresh randomness");
    assert_ne!(h1.req_key, h2.req_key);
}

#[test]
fn header_plaintext_port_before_addr_type() {
    let meta = Metadata {
        host: "example.com".into(),
        dst_port: 443,
        ..Default::default()
    };
    let padding = HeaderPadding::draw();
    let req_key = [0u8; 16];
    let req_iv = [0u8; 16];
    let pt = build_header_plaintext(
        &req_key,
        &req_iv,
        0x42,
        Security::Aes128Gcm,
        &meta,
        false,
        &padding,
    )
    .unwrap();
    let port_offset = 38;
    let port = u16::from_be_bytes([pt[port_offset], pt[port_offset + 1]]);
    assert_eq!(port, 443, "port must be at offset 38 (before addr_type)");
    assert_eq!(
        pt[port_offset + 2],
        ADDR_DOMAIN,
        "addr_type must follow port"
    );
}

#[test]
fn header_plaintext_ends_with_fnv1a() {
    let meta = Metadata {
        dst_ip: Some(IpAddress::V4([1, 2, 3, 4])),
        dst_port: 80,
        ..Default::default()
    };
    let padding = HeaderPadding {
        len: 1,
        bytes: [2; 15],
    };
    let pt = build_header_plaintext(
        &[0u8; 16],
        &[0u8; 16],
        0x42,
        Security::Aes128Gcm,
        &meta,
        false,
        &padding,
    )
    .unwrap();
    let body = &pt[..pt.len() - 4];
    let expected_hash = fnv1a32(body);
    let actual_hash = u32::from_be_bytes([
        pt[pt.len() - 4],
        pt[pt.len() - 3],
        pt[pt.len() - 2],
        pt[pt.len() - 1],
    ]);
    assert_eq!(
        actual_hash, expected_hash,
        "FNV-1a must cover all preceding bytes"
    );
}

#[test]
fn auto_security_returns_valid_cipher() {
    for hardware_aes in [true, false] {
        let s = auto_security(hardware_aes);
        assert!(
            s == Security::Aes128Gcm || s == Security::ChaCha20Poly1305,
            "auto must pick aes or chacha"
        );
    }
}

#[test]
fn metadata_preserves_domain() {
    let metadata = Metadata::from_endpoint(&Endpoint::new(Host::domain("example.com"), 443));
    assert_eq!(metadata.host, "example.com");
    assert_eq!(metadata.dst_port, 443);
}

#[test]
fn derived_keys_are_prefixes_of_one_value() {
    let path: [&[u8]; 2] = [b"one", b"two"];
    let whole = kdf(b"key", &path);
    assert_eq!(&whole[..16], &kdf16(b"key", &path));
    assert_eq!(&whole[..12], &kdf12(b"key", &path));
    assert_ne!(whole, kdf(b"other", &path));
    assert_ne!(whole, kdf(b"key", &path[..1]));
}

#[test]
fn headers_follow_from_what_was_drawn() {
    let key = cmd_key(&[7; 16]);
    let meta = Metadata::from_endpoint(&Endpoint::localhost_v4(80));
    let draw = HeaderDraw {
        req_key: [1; 16],
        req_iv: [2; 16],
        resp_v: 3,
        conn_nonce: [4; 8],
        auth_random: [5; 4],
        padding: HeaderPadding {
            len: 2,
            bytes: [6; 15],
        },
    };
    let one = seal_with(&key, Security::Plain, &meta, false, &draw, 1000).expect("one");
    let two = seal_with(&key, Security::Plain, &meta, false, &draw, 1000).expect("two");
    assert_eq!(one.bytes, two.bytes);
    assert_eq!(&one.bytes[..16], &build_auth_id(&key, 1000, &[5; 4]));
    assert_eq!(&one.bytes[34..42], &[4; 8]);
    assert_eq!((one.req_key, one.req_iv, one.resp_v), ([1; 16], [2; 16], 3));
    let later = seal_with(&key, Security::Plain, &meta, false, &draw, 1001).expect("later");
    assert_ne!(one.bytes, later.bytes);
}

#[test]
fn outbounds_know_the_names_of_ciphers() {
    let make = |security| {
        VmessOutbound::new(
            Endpoint::localhost_v4(443),
            "127.0.0.1",
            &[7; 16],
            security,
            true,
            &TlsLayerConfig::default(),
        )
    };
    assert_eq!(
        make(Some("AES-128-GCM")).ok().expect("aes").security,
        Security::Aes128Gcm
    );
    assert_eq!(
        make(Some("chacha20-poly1305")).ok().expect("chacha").security,
        Security::ChaCha20Poly1305
    );
    assert_eq!(
        make(Some("none")).ok().expect("none").security,
        Security::Plain
    );
    assert_eq!(make(None).ok().expect("auto").security, Security::Aes128Gcm);
    assert_eq!(
        make(Some("rot13")).err().expect("unknown").message,
        "unsupported VMess security `rot13`"
    );
    assert_eq!(config_error("tls").message, "VMess tls");
    let outbound = make(None).ok().expect("auto");
    let draw = HeaderDraw::draw();
    let target = Endpoint::new(Host::domain("example.com"), 443);
    assert!(outbound.connect_protocol(&target, true, &draw, 5).is_ok());
    let long = Endpoint::new(Host::domain(&"a".repeat(256)), 443);
    assert!(outbound.connect_protocol(&long, true, &draw, 5).is_err());
}

#[test]
fn writes_one_record_per_datagram() {
    let target = Endpoint::localhost_v4(53);
    let mut datagram = VmessDatagram::new(target.clone());
    assert!(datagram.poll_send_to(&target).expect("target"));
    datagram
        .sealed(Ok(b"\0\x04ping".to_vec()), 4)
        .expect("sealed");
    assert_eq!(datagram.write.next_bytes(), b"\0\x04ping");
    assert!(datagram.wrote(2).is_ok());
    assert_eq!(
        datagram.wrote(0).err().expect("closed").message,
        "write VMess UDP record"
    );
    assert!(!datagram.poll_send_to(&target).expect("under way"));
    let mut failed = VmessDatagram::new(target);
    assert_eq!(
        failed
            .poll_send_to(&Endpoint::localhost_v4(54))
            .err()
            .expect("target")
            .message,
        "VMess native UDP session cannot change target"
    );
    assert!(failed.sealed(Err("too long".to_string()), 4).is_err());
    assert!(matches!(failed.write, WriteState::Idle));
}

#[test]
fn reads_response_header_then_one_datagram() {
    let target = Endpoint::localhost_v4(53);
    let mut datagram = VmessDatagram::new(target.clone());
    let feed = |datagram: &mut VmessDatagram, total: usize, byte: u8| {
        let mut given = 0;
        loop {
            match datagram.poll_recv_from() {
                RecvStep::Read(count) => {
                    let piece = count.min(5).min(total - given);
                    datagram.received(&vec![byte; piece]).expect("piece");
                    given += piece;
                }
                step => return (given, step),
            }
        }
    };
    let (length, step) = feed(&mut datagram, 1000, 1);
    assert_eq!(length, 18);
    assert!(matches!(step, RecvStep::OpenLength(_)));
    datagram.response_length(Ok(4)).expect("length");
    let (length, step) = feed(&mut datagram, 1000, 2);
    assert_eq!(length, 20);
    assert!(matches!(step, RecvStep::CheckHeader(_)));
    datagram.header_checked(Ok(())).expect("header");
    assert!(matches!(datagram.stage, ReadStage::RecordLength));
    datagram.received(&[0, 4]).expect("length");
    while let RecvStep::Read(count) = datagram.poll_recv_from() {
        assert_eq!(count, 4);
        datagram.received(b"pong").expect("record");
    }
    let (payload, source) = datagram
        .record_opened(Ok(b"pong".to_vec()), 8)
        .expect("packet");
    assert_eq!(source, target);
    assert_eq!(payload, b"pong");
}

#[test]
fn draws_are_made_of_random_numbers() {
    let padding = HeaderPadding::of(0x1234_567f, [9; 15]);
    assert_eq!((padding.len, padding.bytes), (15, [9; 15]));
    assert_eq!(HeaderPadding::of(16, [9; 15]).len, 0);
    let draw = HeaderDraw::of([1; 16], [2; 16], 0x1234_56fe, [3; 8], [4; 4], padding);
    assert_eq!(draw.resp_v, 0xfe);
    assert_eq!((draw.req_key, draw.req_iv), ([1; 16], [2; 16]));
    assert_eq!((draw.conn_nonce, draw.auth_random), ([3; 8], [4; 4]));
    assert_eq!(draw.padding.len, 15);
    assert!(HeaderDraw::draw().padding.len < 16);
}

#[test]
fn the_tls_of_a_server_is_checked() {
    let mut tls = TlsLayerConfig::default();
    assert!(tls_parts("server.test", &tls).ok().expect("off").is_none());
    tls.enabled = true;
    tls.alpn = vec!["h2".to_string()];
    let (name, parts) = tls_parts("server.test", &tls)
        .ok()
        .expect("on")
        .expect("tls");
    assert_eq!(name, "server.test");
    assert_eq!(parts.alpn, vec![b"h2".to_vec()]);
    tls.client_certificate_pem = Some(Vec::new());
    assert_eq!(
        tls_parts("server.test", &tls).err().expect("half").message,
        "VMess TLS client certificate and key must be paired"
    );
    tls.server_name = Some("not a name".to_string());
    assert!(tls_parts("server.test", &tls)
        .err()
        .expect("name")
        .message
        .starts_with("VMess TLS server_name: "));
    assert!(VmessOutbound::new(
        Endpoint::localhost_v4(443),
        "server.test",
        &[7; 16],
        None,
        true,
        &tls,
    )
    .is_err());
}
