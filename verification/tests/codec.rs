use rustbox::codec::socks5::{
    encode_method_selection, parse_connect_request, parse_greeting, AuthMethod, Command, SocksError,
};
use rustbox::types::{Host, IpAddress};

#[test]
fn parses_domain_connect_request_without_runtime_dependencies() {
    let request = parse_connect_request(&[
        0x05, 0x01, 0x00, 0x03, 0x0c, b'e', b'x', b'a', b'm', b'p', b'l', b'e', b'.', b't', b'e',
        b's', b't', 0x01, 0xbb,
    ])
    .expect("parse socks request");

    assert_eq!(request.command, Command::Connect);
    assert_eq!(request.target.port, 443);
    assert_eq!(
        request.target.host,
        Host::Domain("example.test".to_string())
    );
}

#[test]
fn parses_literal_connect_requests() {
    let v4 = parse_connect_request(&[5, 3, 0, 1, 127, 0, 0, 1, 0, 53]).expect("v4");
    assert_eq!(v4.command, Command::UdpAssociate);
    assert_eq!(v4.target.host, Host::Ip(IpAddress::V4([127, 0, 0, 1])));
    assert_eq!(v4.target.port, 53);

    let mut bytes = vec![5, 2, 0, 4];
    bytes.extend_from_slice(&[9; 16]);
    bytes.extend_from_slice(&[1, 0]);
    let v6 = parse_connect_request(&bytes).expect("v6");
    assert_eq!(v6.command, Command::Bind);
    assert_eq!(v6.target.host, Host::Ip(IpAddress::V6([9; 16])));
    assert_eq!(v6.target.port, 256);
}

#[test]
fn refuses_connect_requests_that_make_no_sense() {
    for bytes in [
        vec![],
        vec![4, 1, 0, 1, 1, 2, 3, 4, 0, 80],
        vec![5, 9, 0, 1, 1, 2, 3, 4, 0, 80],
        vec![5, 1, 0, 2, 1, 2, 3, 4, 0, 80],
        vec![5, 1, 0, 1, 1, 2],
        vec![5, 1, 0, 3, 2, 0xff, 0xfe, 0, 80],
    ] {
        assert!(parse_connect_request(&bytes).is_err());
    }
}

#[test]
fn greetings_list_the_methods_of_a_client() {
    let greeting = parse_greeting(&[5, 3, 0, 2, 0x80]).expect("greeting");
    assert_eq!(
        greeting.methods,
        vec![
            AuthMethod::NoAuthentication,
            AuthMethod::UsernamePassword,
            AuthMethod::Private(0x80)
        ]
    );
    assert!(parse_greeting(&[5]).is_err());
    assert!(parse_greeting(&[4, 1, 0]).is_err());
    assert!(parse_greeting(&[5, 2, 0]).is_err());
}

#[test]
fn method_selections_name_the_version_and_the_method() {
    assert_eq!(encode_method_selection(AuthMethod::NoAuthentication), [5, 0]);
    assert_eq!(encode_method_selection(AuthMethod::UsernamePassword), [5, 2]);
    assert_eq!(
        encode_method_selection(AuthMethod::NoAcceptableMethods),
        [5, 0xff]
    );
}

#[test]
fn method_numbers_round_trip() {
    for number in 0..=255_u8 {
        assert_eq!(u8::from(AuthMethod::from(number)), number);
    }
}

#[test]
fn commands_have_three_numbers() {
    assert_eq!(Command::try_from(1).ok(), Some(Command::Connect));
    assert_eq!(Command::try_from(2).ok(), Some(Command::Bind));
    assert_eq!(Command::try_from(3).ok(), Some(Command::UdpAssociate));
    assert!(Command::try_from(4).is_err());
    assert_eq!(SocksError::new("text").message, "text");
}
