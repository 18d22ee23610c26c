use rustbox::anytls::client::{Client, SessionChoice, StreamAttempts};
use rustbox::anytls::padding::{PaddingFactory, SizeRange, CHECK_MARK};
use rustbox::anytls::pipe::{PipeInner, PipeRead};
use rustbox::anytls::session::{remote_error, write_failed, Session, Stream};
use rustbox::anytls::state::{DefaultPaddingFactory, State};
use rustbox::anytls::string_map::{StringMap, StringMapExt};
use rustbox::types::{StreamError, StreamErrorKind};

#[test]
fn reader_drains_queued_data_before_eof_after_close() {
    let mut pipe = PipeInner::new();
    pipe.write(b"response body").unwrap();
    pipe.close_with_error(None);

    match pipe.read(32) {
        PipeRead::Bytes(body) => assert_eq!(body, b"response body"),
        _ => panic!("there is data"),
    }
    match pipe.read(32) {
        PipeRead::Bytes(body) => assert!(body.is_empty()),
        _ => panic!("the pipe has ended"),
    }
}

#[test]
fn pipes_give_pieces_in_order() {
    let mut pipe = PipeInner::new();
    assert!(matches!(pipe.read(4), PipeRead::Wait));
    pipe.write(b"abc").unwrap();
    pipe.write(b"de").unwrap();
    let mut out = Vec::new();
    for _ in 0..4 {
        if let PipeRead::Bytes(bytes) = pipe.read(2) {
            out.extend_from_slice(&bytes);
        }
    }
    assert_eq!(out, b"abcde");
    pipe.close_with_error(Some(StreamError::new(StreamErrorKind::Other, "gone")));
    assert!(pipe.write(b"late").is_err());
    match pipe.read(2) {
        PipeRead::Failed(error) => assert_eq!(error.message, "gone"),
        _ => panic!("the failure is told"),
    }
    match PipeInner::new().deadline_reached() {
        PipeRead::Failed(error) => assert_eq!(error.kind, StreamErrorKind::TimedOut),
        _ => panic!("the time is over"),
    }
}

#[test]
fn settings_round_trip() {
    let map = StringMap::from_bytes(b"v=2\nclient=rustbox\npadding-md5=abc");
    assert_eq!(map.get("v").map(String::as_str), Some("2"));
    assert_eq!(map.get("client").map(String::as_str), Some("rustbox"));
    assert_eq!(map.get("other"), None);
    let again = StringMap::from_bytes(&map.to_bytes());
    assert_eq!(again.get("padding-md5").map(String::as_str), Some("abc"));
    assert!(StringMap::from_bytes(b"no pairs").is_empty());
}

#[test]
fn padding_schemes_say_how_packets_are_cut() {
    let padding = PaddingFactory::new(b"stop=3\n0=30-30\n1=100-400,c,500").expect("scheme");
    assert_eq!(padding.stop(), 3);
    assert_eq!(padding.raw_scheme(), b"stop=3\n0=30-30\n1=100-400,c,500");
    assert_eq!(padding.md5().len(), 32);
    assert_eq!(padding.generate_record_payload_sizes(0), vec![30]);
    let sizes = padding.generate_record_payload_sizes(1);
    assert_eq!(sizes.len(), 2);
    assert!((100..=400).contains(&sizes[0]));
    assert_eq!(sizes[1], CHECK_MARK);
    assert!(padding.generate_record_payload_sizes(2).is_empty());
    assert!(matches!(padding.ranges(1)[1], SizeRange::Check));
    assert!(PaddingFactory::new(b"0=30-30").is_none());
    assert!(PaddingFactory::new(b"stop=x").is_none());
}

#[test]
fn digests_of_schemes_are_md5() {
    let padding = PaddingFactory::new(b"stop=1").expect("scheme");
    assert_eq!(padding.md5(), "0f90ac628ea5d808d36a6522a492d7b6");
    assert_ne!(padding.md5(), PaddingFactory::default().md5());
}

#[test]
fn default_schemes_are_replaced_by_valid_ones() {
    let mut holder = DefaultPaddingFactory::new();
    let before = holder.load().md5().to_string();
    assert!(!holder.update(b"nonsense"));
    assert_eq!(holder.load().md5(), before);
    assert!(holder.update(b"stop=2\n0=5-5"));
    assert_eq!(holder.load().stop(), 2);
}

#[test]
fn states_remember_what_the_peer_said() {
    let mut state = State::new(PaddingFactory::default());
    assert!(!state.received_settings_from_client());
    state.mark_received_settings_from_client();
    state.set_peer_version(2);
    state.set_padding(PaddingFactory::new(b"stop=2").expect("scheme"));
    assert!(state.received_settings_from_client());
    assert_eq!(state.peer_version(), 2);
    assert_eq!(state.padding().stop(), 2);
}

#[test]
fn sessions_number_their_streams() {
    let mut session = Session::new(true);
    assert!(session.needs_start());
    session.mark_started();
    assert!(!session.needs_start());
    let one = session.open_stream();
    let two = session.open_stream();
    assert_ne!(one, two);
    assert_eq!(session.stream_count(), 2);
    session.arm_synack_timeout(one);
    assert!(session.cancel_synack_timeout(one));
    assert!(!session.cancel_synack_timeout(one));
    assert!(!session.remove_stream(one));
    assert!(session.remove_stream(two));
    assert!(session.ensure_incoming_stream(77));
    assert!(!session.ensure_incoming_stream(77));
    assert!(session.has_stream(77));
    assert_eq!(session.close().expect("first").streams, vec![77]);
    assert!(session.close().is_none());
    assert!(session.is_closed(false));
}

#[test]
fn sessions_end_with_their_connection() {
    let session = Session::new(false);
    assert!(session.received(5).is_ok());
    assert_eq!(
        session.received(0).err().expect("end").kind,
        StreamErrorKind::UnexpectedEof
    );
    assert_ne!(write_failed(true).message, write_failed(false).message);
    assert!(remote_error("busy").message.contains("busy"));
}

#[test]
fn streams_are_closed_once() {
    let mut stream = Stream::new(4);
    assert_eq!(stream.close_with_error(None), Some(4));
    assert_eq!(stream.close_with_error(None), None);
    let mut stream = Stream::new(5);
    assert!(stream.close_local_with_error(None));
    assert!(!stream.close_local_with_error(None));
}

#[test]
fn clients_use_idle_sessions_first() {
    let mut client = Client::new(30_000, 1);
    assert!(matches!(
        client.find_or_create_session(),
        SessionChoice::Create
    ));
    let key = client.create_session();
    match client.find_or_create_session() {
        SessionChoice::Free(found) => assert_eq!(found, key),
        _ => panic!("a session has no stream"),
    }
    client.session_changed(key, false, 1);
    assert!(matches!(
        client.find_or_create_session(),
        SessionChoice::Create
    ));
    client.session_changed(key, false, 0);
    client.session_idle(key, 1000);
    match client.find_or_create_session() {
        SessionChoice::Idle(found) => assert_eq!(found, key),
        _ => panic!("a session is idle"),
    }
    client.session_idle(key, 1000);
    assert!(client.idle_cleanup(100_000).is_empty());
    let other = client.create_session();
    client.session_idle(other, 1000);
    assert_eq!(client.idle_cleanup(100_000).len(), 1);
    assert_eq!(client.close(), vec![key, other]);
    client.session_ended(key);
    client.session_ended(other);
    assert!(matches!(
        client.find_or_create_session(),
        SessionChoice::Create
    ));
}

#[test]
fn streams_are_tried_three_times() {
    let mut attempts = StreamAttempts::new();
    assert!(attempts.failed());
    assert!(attempts.failed());
    assert!(!attempts.failed());
}

#[test]
fn streams_give_what_came_for_them() {
    let mut stream = Stream::new(9);
    assert_eq!(stream.id(), 9);
    assert_eq!(stream.push_data(b"hello").ok(), Some(5));
    match stream.read(3) {
        PipeRead::Bytes(bytes) => assert_eq!(bytes, b"hel"),
        _ => panic!("there is data"),
    }
    stream.close_local_with_error(Some(remote_error("busy")));
    assert_eq!(
        stream.push_data(b"late").err().expect("closed").message,
        "Pipe closed"
    );
    match stream.read(3) {
        PipeRead::Bytes(bytes) => assert_eq!(bytes, b"lo"),
        _ => panic!("there is data"),
    }
    match stream.read(3) {
        PipeRead::Failed(error) => assert_eq!(error.message, "remote: busy"),
        _ => panic!("the failure is told"),
    }
}

#[test]
fn a_session_with_a_stream_is_passed_over() {
    let mut client = Client::new(30_000, 1);
    let busy = client.create_session();
    let other = client.create_session();
    client.session_idle(busy, 1000);
    client.session_changed(busy, false, 1);
    match client.find_or_create_session() {
        SessionChoice::Free(found) => assert_eq!(found, other),
        _ => panic!("a session has no stream"),
    }
    client.session_changed(other, true, 0);
    assert!(matches!(
        client.find_or_create_session(),
        SessionChoice::Create
    ));
}
