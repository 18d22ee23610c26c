use rustbox::inbound::flow::FlowIds;
use rustbox::inbound::socks5::io_error_to_std;
use rustbox::outbound::socks5::io_error;
use rustbox::stack::{
    build_icmp_echo_reply, echo_request, PacketFlowStack, PlannedStack, StackAction,
    StackCapability, StackStream, ICMP, IPV6_ICMP,
};
use rustbox::types::{
    Endpoint, Host, IoError, IoErrorKind, IpAddress, Network, StreamError, StreamErrorKind,
};

#[test]
fn builds_icmpv4_echo_reply_with_original_identity_and_payload() {
    let payload = b"rustbox-ping";
    let reply = build_icmp_echo_reply(
        &IpAddress::V4([10, 0, 0, 2]),
        &IpAddress::V4([1, 1, 1, 1]),
        77,
        9,
        payload,
    )
    .expect("reply");
    let (header, reply_payload) =
        etherparse::Icmpv4Header::from_slice(&reply).expect("ICMPv4 reply");

    assert!(matches!(
        header.icmp_type,
        etherparse::Icmpv4Type::EchoReply(etherparse::IcmpEchoHeader { id: 77, seq: 9 })
    ));
    assert_eq!(reply_payload, payload);
}

#[test]
fn maps_io_error_kinds() {
    assert_eq!(
        io_error_to_std(IoError::new(IoErrorKind::Closed, "closed")).kind,
        StreamErrorKind::UnexpectedEof
    );
    assert_eq!(
        io_error(StreamError::new(
            StreamErrorKind::Unsupported,
            "unsupported"
        ))
        .kind,
        IoErrorKind::Unsupported
    );
}

#[test]
fn echo_replies_hold_what_the_request_held() {
    let request = [8, 0, 0x12, 0x34, 0, 77, 0, 9, b'h', b'i'];
    let destination = IpAddress::V4([1, 1, 1, 1]);
    let (identifier, sequence, payload) = echo_request(&destination, &request).expect("request");
    assert_eq!((identifier, sequence), (77, 9));
    let source = IpAddress::V4([10, 0, 0, 2]);
    let reply = build_icmp_echo_reply(&source, &destination, identifier, sequence, &payload)
        .expect("reply");
    assert_eq!(reply.len(), request.len());
    assert_eq!(&reply[..2], &[0, 0]);
    assert_eq!(&reply[4..], &request[4..]);
    let mut sum: u32 = 0;
    for pair in reply.chunks(2) {
        sum += u32::from(u16::from_be_bytes([pair[0], pair[1]]));
    }
    sum = (sum & 0xffff) + (sum >> 16);
    assert_eq!(sum, 0xffff);
}

#[test]
fn builds_icmpv6_echo_replies() {
    let source = IpAddress::V6([1; 16]);
    let destination = IpAddress::V6([2; 16]);
    let mut request = vec![128, 0, 0, 0, 1, 2, 3, 4];
    request.extend_from_slice(b"payload");
    let (identifier, sequence, payload) = echo_request(&destination, &request).expect("request");
    assert_eq!((identifier, sequence), (0x0102, 0x0304));
    let reply = build_icmp_echo_reply(&source, &destination, identifier, sequence, &payload)
        .expect("reply");
    assert_eq!(reply[0], 129);
    assert_eq!(&reply[4..], &request[4..]);
    let expected = etherparse::Icmpv6Type::EchoReply(etherparse::IcmpEchoHeader {
        id: identifier,
        seq: sequence,
    })
    .calc_checksum([2; 16], [1; 16], &payload)
    .expect("checksum");
    assert_eq!(u16::from_be_bytes([reply[2], reply[3]]), expected);
}

#[test]
fn other_control_messages_are_refused() {
    let v4 = IpAddress::V4([1, 1, 1, 1]);
    let v6 = IpAddress::V6([1; 16]);
    let message = |destination: &IpAddress, packet: &[u8]| {
        echo_request(destination, packet)
            .err()
            .expect("refused")
            .message
    };
    assert_eq!(
        message(&v4, &[0, 0, 0, 0, 0, 0, 0, 0]),
        "unsupported ICMPv4 control message"
    );
    assert_eq!(
        message(&v6, &[129, 0, 0, 0, 0, 0, 0, 0]),
        "unsupported ICMPv6 control message"
    );
    assert!(message(&v4, &[8]).starts_with("parse ICMPv4 packet: "));
    assert!(message(&v4, &[13, 0, 0, 0, 0, 0, 0, 0]).starts_with("parse ICMPv4 packet: "));
    assert!(message(&v6, &[128]).starts_with("parse ICMPv6 packet: "));
    assert_eq!(
        build_icmp_echo_reply(&v4, &v6, 1, 1, b"")
            .err()
            .expect("families")
            .message,
        "ICMP address families differ"
    );
}

#[test]
fn accepted_streams_become_flows() {
    let stack = PacketFlowStack::new(7)
        .with_mtu(9000)
        .with_interface(Some("tun0".to_string()))
        .with_icmp_interface_index(Some(3));
    assert_eq!(stack.mtu, 9000);
    let mut ids = FlowIds::new();
    let source = Endpoint::new(Host::Ip(IpAddress::V4([10, 0, 0, 2])), 12_345);
    let destination = Endpoint::new(Host::Ip(IpAddress::V4([1, 1, 1, 1])), 53);
    match stack.accepted(
        &mut ids,
        StackStream::Udp(source.clone(), destination.clone()),
    ) {
        StackAction::Submit(flow) => {
            assert_eq!(flow.inbound, 7);
            assert_eq!(flow.interface.as_deref(), Some("tun0"));
            assert_eq!(flow.meta.network, Network::Udp);
            assert_eq!(flow.meta.source, source);
            assert_eq!(flow.meta.destination, destination);
            assert_eq!(flow.meta.domain, None);
        }
        _ => panic!("a flow is made"),
    }
    match stack.accepted(&mut ids, StackStream::Tcp(source, destination)) {
        StackAction::Submit(flow) => assert_eq!((flow.id, flow.meta.network), (2, Network::Tcp)),
        _ => panic!("a flow is made"),
    }
    for protocol in [ICMP, IPV6_ICMP] {
        assert!(matches!(
            stack.accepted(&mut ids, StackStream::UnknownTransport(protocol)),
            StackAction::ForwardEcho(3)
        ));
    }
    let message = |action| match action {
        StackAction::Refuse(error) => error.message,
        _ => panic!("the packet is dropped"),
    };
    assert_eq!(
        message(stack.accepted(&mut ids, StackStream::UnknownTransport(50))),
        "unsupported transport packet"
    );
    assert_eq!(
        message(stack.accepted(&mut ids, StackStream::UnknownNetwork)),
        "unsupported network packet"
    );
    let deaf = PacketFlowStack::new(7).with_icmp_interface_index(Some(0));
    assert_eq!(deaf.icmp_interface_index, None);
    assert_eq!(
        message(deaf.accepted(&mut ids, StackStream::UnknownTransport(ICMP))),
        "unsupported transport packet"
    );
}

#[test]
fn packet_sizes_have_limits() {
    assert_eq!(PacketFlowStack::new(1).mtu, 1500);
    assert_eq!(PacketFlowStack::new(1).with_mtu(100).mtu, 1280);
    assert_eq!(PacketFlowStack::new(1).with_mtu(100_000).mtu, 65_535);
}

#[test]
fn planned_stacks_accept_nothing() {
    assert_eq!(
        PlannedStack::new().attach().message,
        "packet-to-flow network stack is not implemented yet"
    );
    let capability = StackCapability {
        supports_tcp: true,
        supports_udp: true,
        supports_icmp_echo: false,
        supports_ipv4: true,
        supports_ipv6: true,
    };
    assert_eq!(capability.clone(), capability);
}
