use mqtt::client::{connack_outcome, received, ConnectError, ConnectOptions, MqttError, Session};
use mqtt::parser::{Message, QoS, SubAckCode};

const CONNACK_ACCEPTED: [u8; 4] = [0x20, 0x02, 0x00, 0x00];

fn new_options<'a>(id: &'a str) -> ConnectOptions<'a> {
    ConnectOptions {
        host_port: "iot.eclipse.org:1883",
        client_id: id,
        user: None,
        pass: None,
        keep_alive: 0,
        clean: true,
        lwt: None,
    }
}

fn assert_ok<A>(res: Result<A, MqttError>) -> A {
    match res {
        Ok(a) => a,
        Err(e) => panic!("{:?}", e),
    }
}

fn connected(id: &str) -> Session {
    let mut session = Session::new();
    let options = new_options(id);
    assert!(options.fits());
    let request = session.connect(&options);
    assert_eq!(request[0], 0x10);
    assert_ok(session.handshake(&CONNACK_ACCEPTED));
    session
}

#[test]
fn connect_to_broker() {
    let mut session = Session::new();
    let options = new_options("rust-mqtt/test1");
    let request = session.connect(&options);
    let mut expected = vec![0x10u8, 27, 0, 4, 0x4d, 0x51, 0x54, 0x54, 4, 2, 0, 0, 0, 15];
    expected.extend_from_slice(b"rust-mqtt/test1");
    assert_eq!(request, expected);
    assert!(!session.is_connected());
    assert_ok(session.handshake(&CONNACK_ACCEPTED));
    assert!(session.is_connected());
    assert_eq!(assert_ok(session.disconnect()), vec![0xe0, 0x00]);
    assert!(!session.is_connected());
}

#[test]
fn blind_publish() {
    let mut session = connected("rust-mqtt/test2");
    let buf = assert_ok(session.publish(
        "rust-mqtt/foo/bar",
        "test message",
        QoS::AtMostOnce,
        false,
        false,
    ));
    let mut expected = vec![0x30u8, 31, 0, 17];
    expected.extend_from_slice(b"rust-mqtt/foo/bar");
    expected.extend_from_slice(b"test message");
    assert_eq!(buf, expected);
    assert_eq!(session.last_id(), 0);
}

#[test]
fn subscribe_and_receive_suback() {
    let mut session = connected("rust-mqtt/test3");
    let subs = vec![("rust-mqtt/foo/bar", QoS::AtMostOnce)];
    let request = assert_ok(session.subscribe(subs));
    let mut expected = vec![0x82u8, 22, 0, 1, 0, 17];
    expected.extend_from_slice(b"rust-mqtt/foo/bar");
    expected.push(0);
    assert_eq!(request, expected);

    match session.recv(&[0x90, 0x03, 0x00, 0x01, 0x00]) {
        Ok(Message::SubAck(codes)) => {
            assert_eq!(*codes, vec![SubAckCode::SubAckSuccess(QoS::AtMostOnce)])
        }
        Ok(_) => panic!("Not a SUBSCRIBE"),
        Err(e) => panic!("{:?}", e),
    };

    let request = assert_ok(session.unsubscribe(vec!["rust-mqtt/foo/bar"]));
    let mut expected = vec![0xa2u8, 21, 0, 2, 0, 17];
    expected.extend_from_slice(b"rust-mqtt/foo/bar");
    assert_eq!(request, expected);
    match session.recv(&[0xb0, 0x02, 0x00, 0x02]) {
        Ok(Message::UnsubAck) => (),
        Ok(_) => panic!("Not an UNSUBSCRIBE"),
        Err(e) => panic!("Expected UNSUBSCRIBE but got {:?}", e),
    }
}

#[test]
fn new_session_is_disconnected() {
    let session = Session::new();
    assert!(!session.is_connected());
    assert_eq!(session.last_id(), 0);
}

#[test]
fn identifiers_start_at_one_and_increase() {
    let mut session = Session::new();
    let mut last = 0u16;
    for expected in 1u16..=1000 {
        let id = session.next_id();
        assert_eq!(id, expected);
        assert!(id > last);
        assert_eq!(session.last_id(), id);
        last = id;
    }
}

#[test]
fn identifiers_start_again_at_one() {
    let mut session = Session::new();
    for _ in 0..65534 {
        session.next_id();
    }
    assert_eq!(session.next_id(), 65535);
    assert_eq!(session.next_id(), 1);
    assert_eq!(session.next_id(), 2);
}

#[test]
fn at_most_once_takes_no_identifier() {
    let mut session = connected("id");
    for _ in 0..3 {
        assert_ok(session.publish("a", "b", QoS::AtMostOnce, false, false));
        assert_eq!(session.last_id(), 0);
    }
    let buf = assert_ok(session.publish("a", "b", QoS::AtLeastOnce, false, false));
    assert_eq!(buf, vec![0x32, 6, 0x00, 0x01, 0x61, 0x00, 0x01, 0x62]);
    assert_eq!(session.last_id(), 1);
    assert_ok(session.publish("a", "b", QoS::AtMostOnce, false, false));
    assert_eq!(session.last_id(), 1);
    let buf = assert_ok(session.publish("a", "b", QoS::ExactlyOnce, true, true));
    assert_eq!(buf, vec![0x3d, 6, 0x00, 0x01, 0x61, 0x00, 0x02, 0x62]);
    assert_eq!(session.last_id(), 2);
}

#[test]
fn one_identifier_for_each_request() {
    let mut session = connected("id");
    let buf = assert_ok(session.subscribe(vec![("a", QoS::AtMostOnce), ("b", QoS::AtLeastOnce)]));
    assert_eq!(buf, vec![0x82, 10, 0, 1, 0, 1, b'a', 0, 0, 1, b'b', 1]);
    assert_eq!(session.last_id(), 1);
    let buf = assert_ok(session.unsubscribe(vec!["a", "b"]));
    assert_eq!(buf, vec![0xa2, 8, 0, 2, 0, 1, b'a', 0, 1, b'b']);
    assert_eq!(session.last_id(), 2);
}

#[test]
fn refused_connect_names_the_reason() {
    let reasons = [
        (1u8, ConnectError::WrongProtocolVersion),
        (2, ConnectError::IdentifierRejected),
        (3, ConnectError::ServerUnavailable),
        (4, ConnectError::BadUserOrPassword),
        (5, ConnectError::NotAuthorized),
        (6, ConnectError::OtherError),
        (255, ConnectError::OtherError),
    ];
    for (code, reason) in reasons {
        let mut session = Session::new();
        match session.handshake(&[0x20, 0x02, 0x00, code]) {
            Err(MqttError::ConnectRefused(r)) => assert_eq!(r, reason),
            other => panic!("{:?}", other),
        }
        assert!(!session.is_connected());
        assert_eq!(ConnectError::from_u8(code), Some(reason));
    }
    assert_eq!(ConnectError::from_u8(0), None);
}

#[test]
fn not_authorized_from_the_wire() {
    let reply = mqtt::parser::decode(&[0x20, 0x02, 0x00, 0x05]).unwrap();
    assert_eq!(reply, Message::Connack(5));
    match connack_outcome(reply) {
        Err(MqttError::ConnectRefused(ConnectError::NotAuthorized)) => (),
        other => panic!("{:?}", other),
    }
    assert!(connack_outcome(Message::Connack(0)).is_ok());
}

#[test]
fn handshake_wants_a_connack() {
    let mut session = Session::new();
    match session.handshake(&[0xd0, 0x00]) {
        Err(MqttError::WrongMessage(Message::PingResp)) => (),
        other => panic!("{:?}", other),
    }
    assert!(!session.is_connected());
    match session.handshake(&[0x90, 0x03, 0x00, 0x01, 0x01]) {
        Err(MqttError::WrongMessage(Message::SubAck(codes))) => {
            assert_eq!(*codes, vec![SubAckCode::SubAckSuccess(QoS::AtLeastOnce)])
        }
        other => panic!("{:?}", other),
    }
    match session.handshake(&[]) {
        Err(MqttError::NoData) => (),
        other => panic!("{:?}", other),
    }
    match session.handshake(&[0x20, 0x03, 0x00, 0x00, 0x00]) {
        Err(MqttError::MqttParseError(_)) => (),
        other => panic!("{:?}", other),
    }
    assert!(!session.is_connected());
    match connack_outcome(Message::UnsubAck) {
        Err(MqttError::WrongMessage(Message::UnsubAck)) => (),
        other => panic!("{:?}", other),
    }
}

#[test]
fn failed_handshake_disconnects() {
    let mut session = connected("id");
    assert!(session.is_connected());
    assert!(session.handshake(&[0x20, 0x02, 0x00, 0x02]).is_err());
    assert!(!session.is_connected());
}

#[test]
fn nothing_is_sent_without_a_connection() {
    let mut session = Session::new();
    match session.disconnect() {
        Err(MqttError::NoConnection) => (),
        other => panic!("{:?}", other),
    }
    match session.recv(&[0xd0, 0x00]) {
        Err(MqttError::NoConnection) => (),
        other => panic!("{:?}", other),
    }
    match session.publish("a", "b", QoS::AtLeastOnce, false, false) {
        Err(MqttError::NoConnection) => (),
        other => panic!("{:?}", other),
    }
    assert_eq!(session.last_id(), 1);
    match session.publish("a", "b", QoS::AtMostOnce, false, false) {
        Err(MqttError::NoConnection) => (),
        other => panic!("{:?}", other),
    }
    assert_eq!(session.last_id(), 1);
    match session.subscribe(vec![("a", QoS::AtMostOnce)]) {
        Err(MqttError::NoConnection) => (),
        other => panic!("{:?}", other),
    }
    match session.unsubscribe(vec!["a"]) {
        Err(MqttError::NoConnection) => (),
        other => panic!("{:?}", other),
    }
    assert_eq!(session.last_id(), 3);
}

#[test]
fn recv_reads_one_message() {
    let session = connected("id");
    match session.recv(&[0xd0, 0x00]) {
        Ok(Message::PingResp) => (),
        other => panic!("{:?}", other),
    }
    match session.recv(&[]) {
        Err(MqttError::NoData) => (),
        other => panic!("{:?}", other),
    }
    match session.recv(&[0xc0, 0x00]) {
        Err(MqttError::MqttParseError(text)) => assert_eq!(text, "Message unrecognized"),
        other => panic!("{:?}", other),
    }
    match received(&[0xe0, 0x00]) {
        Ok(Message::Disconnect) => (),
        other => panic!("{:?}", other),
    }
    match received(&[0x00]) {
        Err(MqttError::MqttParseError(_)) => (),
        other => panic!("{:?}", other),
    }
}

#[test]
fn broken_transport_disconnects() {
    let mut session = connected("id");
    session.next_id();
    let error = std::io::Error::new(std::io::ErrorKind::BrokenPipe, "gone");
    match session.broken(error) {
        MqttError::BrokenIO(e) => assert_eq!(e.kind(), std::io::ErrorKind::BrokenPipe),
        other => panic!("{:?}", other),
    }
    assert!(!session.is_connected());
    assert_eq!(session.last_id(), 1);
}

#[test]
fn options_must_fit() {
    let too_long = "a".repeat(65536);
    let mut options = new_options("id");
    assert!(options.fits());
    options.user = Some(&too_long);
    assert!(!options.fits());
}
