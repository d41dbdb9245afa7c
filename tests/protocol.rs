use mqtt::acks::{properties_writable, Connack, Disconnect, Puback};
use mqtt::connection::{client_step, server_step, ClientAction, ClientEvent, ClientState, ServerPhase};
use mqtt::fixed_header::{CONNECT_PACKET, DISCONNECT_PACKET, PINGREQ_PACKET, SUBACK_PACKET};
use mqtt::properties::{
    decode_property_block, property_kind, write_property_block, Property, PropertyKind, PropertyValue,
    MAXIMUM_PACKET_SIZE, REASON_STRING, RECEIVE_MAXIMUM, SERVER_KEEP_ALIVE, USER_PROPERTY,
};
use mqtt::reason_codes::ReasonMode;
use mqtt::router::Router;
use mqtt::session::{SessionTable, Target};
use mqtt::subscribe::{Subscribe, TopicRequest};
use mqtt::unsubscribe::{Unsuback, Unsubscribe};
use mqtt::timing::{
    check_packet_size, client_keep_alive, keep_alive_expired, negotiate_maximum_packet_size,
    reconnect_delay_ms, with_jitter, KeepAliveAction,
};

fn user(k: &str, v: &str) -> Property {
    Property { id: USER_PROPERTY, value: PropertyValue::StrPair(k.as_bytes().to_vec(), v.as_bytes().to_vec()) }
}

#[test]
fn property_block_round_trip() {
    let props = vec![
        Property { id: MAXIMUM_PACKET_SIZE, value: PropertyValue::FourByte(1024) },
        Property { id: SERVER_KEEP_ALIVE, value: PropertyValue::TwoByte(30) },
        Property { id: REASON_STRING, value: PropertyValue::Str(b"ok".to_vec()) },
        user("a", "1"),
        user("a", "2"),
    ];
    let mut out = vec![0xEE];
    write_property_block(&props, &mut out);
    assert_eq!(out[1] as usize, out.len() - 2);
    assert_eq!(&out[2..7], &[0x27, 0, 0, 4, 0]);
    let (back, next) = decode_property_block(&out, 1).unwrap();
    assert_eq!(next, out.len());
    assert_eq!(back.len(), 5);
    assert!(matches!(back[0].value, PropertyValue::FourByte(1024)));
    assert!(matches!(back[1].value, PropertyValue::TwoByte(30)));
    match &back[4].value {
        PropertyValue::StrPair(k, v) => {
            assert_eq!(k, &b"a".to_vec());
            assert_eq!(v, &b"2".to_vec());
        }
        _ => panic!("expected a string pair"),
    }
}

#[test]
fn property_errors() {
    // Unknown identifier.
    assert_eq!(decode_property_block(&[2, 0x01, 0x00], 0).err(), Some(ReasonMode::MalformedPacket));
    // Value cut short.
    assert_eq!(decode_property_block(&[2, 0x27, 0x00], 0).err(), Some(ReasonMode::MalformedPacket));
    // Length past the end.
    assert_eq!(decode_property_block(&[5, 0x13, 0x00], 0).err(), Some(ReasonMode::MalformedPacket));
    // Duplicate identifier.
    assert_eq!(
        decode_property_block(&[6, 0x13, 0, 1, 0x13, 0, 2], 0).err(),
        Some(ReasonMode::ProtocolError)
    );
    // Zero receive maximum.
    assert_eq!(decode_property_block(&[3, 0x21, 0, 0], 0).err(), Some(ReasonMode::ProtocolError));
    assert!(decode_property_block(&[3, 0x21, 0, 5], 0).is_ok());
    assert_eq!(property_kind(RECEIVE_MAXIMUM), Some(PropertyKind::TwoByte));
    assert_eq!(property_kind(0x01), None);
}

#[test]
fn puback_round_trip_and_short_form() {
    let p = Puback { packet_id: 7, reason: ReasonMode::Success, properties: vec![] };
    let mut out = Vec::new();
    p.write_to(&mut out);
    assert_eq!(out, vec![0x40, 4, 0, 7, 0, 0]);
    let (back, n) = Puback::read_from(&out).unwrap();
    assert_eq!(back.packet_id, 7);
    assert_eq!(back.reason, ReasonMode::Success);
    assert_eq!(n, 6);
    let (short, n) = Puback::read_from(&[0x40, 2, 0, 9]).unwrap();
    assert_eq!(short.packet_id, 9);
    assert_eq!(short.reason, ReasonMode::Success);
    assert_eq!(n, 4);
    let (inuse, _) = Puback::read_from(&[0x40, 3, 0, 9, 0x91]).unwrap();
    assert_eq!(inuse.reason, ReasonMode::PacketIdentifierInUse);
    assert_eq!(Puback::read_from(&[0x40, 3, 0, 9, 0x42]).err(), Some(ReasonMode::MalformedPacket));
}

#[test]
fn connack_and_disconnect() {
    let c = Connack {
        session_present: true,
        reason: ReasonMode::Success,
        properties: vec![Property { id: SERVER_KEEP_ALIVE, value: PropertyValue::TwoByte(20) }],
    };
    let mut out = Vec::new();
    c.write_to(&mut out);
    assert_eq!(out, vec![0x20, 6, 1, 0, 3, 0x13, 0, 20]);
    let (back, _) = Connack::read_from(&out).unwrap();
    assert!(back.session_present);
    assert_eq!(back.properties.len(), 1);
    assert_eq!(Connack::read_from(&[0x20, 2, 2, 0]).err(), Some(ReasonMode::MalformedPacket));

    let d = Disconnect { reason: ReasonMode::SessionTakenOver, properties: vec![] };
    let mut out = Vec::new();
    d.write_to(&mut out);
    assert_eq!(out, vec![DISCONNECT_PACKET, 2, 0x8E, 0]);
    let (back, _) = Disconnect::read_from(&out).unwrap();
    assert_eq!(back.reason, ReasonMode::SessionTakenOver);
    let (normal, n) = Disconnect::read_from(&[DISCONNECT_PACKET, 0]).unwrap();
    assert_eq!(normal.reason, ReasonMode::Success);
    assert_eq!(n, 2);
}

fn request(filter: &str, max_qos: u8) -> TopicRequest {
    TopicRequest {
        topic_filter: filter.as_bytes().to_vec(),
        max_qos,
        no_local: false,
        retain_as_published: false,
        retain_handling: 0,
    }
}

#[test]
fn subscribe_round_trip() {
    let s = Subscribe {
        packet_id: 3,
        properties: vec![],
        topics: vec![request("bad/#", 1), TopicRequest { no_local: true, retain_handling: 2, ..request("t", 0) }],
    };
    let mut out = Vec::new();
    s.write_to(&mut out);
    assert_eq!(out, vec![0x82, 15, 0, 3, 0, 0, 5, b'b', b'a', b'd', b'/', b'#', 0x01, 0, 1, b't', 0x24]);
    let (back, n) = Subscribe::read_from(&out).unwrap();
    assert_eq!(n, out.len());
    assert_eq!(back.packet_id, 3);
    assert_eq!(back.topics.len(), 2);
    assert_eq!(back.topics[0].topic_filter, b"bad/#".to_vec());
    assert_eq!(back.topics[0].max_qos, 1);
    assert!(back.topics[1].no_local);
    assert_eq!(back.topics[1].retain_handling, 2);
}

#[test]
fn subscribe_decode_errors() {
    // No request at all.
    assert_eq!(Subscribe::read_from(&[0x82, 3, 0, 1, 0]).err(), Some(ReasonMode::ProtocolError));
    // Zero packet identifier.
    assert_eq!(Subscribe::read_from(&[0x82, 6, 0, 0, 0, 0, 1, b't']).err(), Some(ReasonMode::MalformedPacket));
    // Reserved options bits set.
    assert_eq!(
        Subscribe::read_from(&[0x82, 7, 0, 1, 0, 0, 1, b't', 0x40]).err(),
        Some(ReasonMode::MalformedPacket)
    );
    // QoS 2 requested.
    assert_eq!(
        Subscribe::read_from(&[0x82, 7, 0, 1, 0, 0, 1, b't', 0x02]).err(),
        Some(ReasonMode::MalformedPacket)
    );
}

#[test]
fn subscribe_all_answers_each_filter() {
    let mut router = Router::new();
    let req = Subscribe { packet_id: 11, properties: vec![], topics: vec![request("a/+", 1), request("a/#/b", 0), request("c", 0)] };
    let (suback, sent) = router.subscribe_all(b"A", &req);
    assert_eq!(suback.packet_id, 11);
    assert_eq!(suback.reason_codes, vec![0x01, 0x81, 0x00]);
    assert!(sent.is_empty());
    assert_eq!(router.subscriptions.len(), 2);
    router.remove_client(b"B");
    assert_eq!(router.subscriptions.len(), 2);
    router.remove_client(b"A");
    assert!(router.subscriptions.is_empty());
    let mut out = Vec::new();
    suback.write_to(&mut out);
    assert_eq!(out[0], SUBACK_PACKET);
}

#[test]
fn subscribe_all_returns_retained_messages() {
    let mut router = Router::new();
    router.store_retained(b"sensors/1", b"24C");
    router.store_retained(b"other", b"x");
    let req = Subscribe {
        packet_id: 2,
        properties: vec![],
        topics: vec![request("sensors/+", 0), TopicRequest { retain_handling: 1, ..request("sensors/+", 0) }],
    };
    let (suback, sent) = router.subscribe_all(b"C", &req);
    assert_eq!(suback.reason_codes, vec![0x00, 0x00]);
    // The second request names a filter the first just subscribed to.
    assert_eq!(sent.len(), 1);
    assert_eq!(sent[0].topic, b"sensors/1".to_vec());
    assert_eq!(sent[0].payload, b"24C".to_vec());
}

#[test]
fn empty_client_id_gets_a_fresh_one() {
    let mut table = SessionTable::new();
    assert_eq!(table.assign_client_id(), Some(b"a".to_vec()));
    table.bind(b"a", true, 1);
    table.bind(b"xyz", true, 2);
    let id = table.assign_client_id().unwrap();
    assert_eq!(id, b"aaaa".to_vec());
    assert_eq!(table.target_of(&id), Target::Absent);
}

#[test]
fn session_takeover_and_queue() {
    let mut table = SessionTable::new();
    let first = table.bind(b"app1", false, 1);
    assert!(!first.session_present);
    assert_eq!(first.taken_over, None);
    let second = table.bind(b"app1", false, 2);
    assert_eq!(second.taken_over, Some(1));
    assert!(second.session_present);
    assert_eq!(table.sessions.len(), 1);
    // The connection taken over cannot unbind the new one.
    assert!(!table.unbind(b"app1", 1));
    assert!(!table.enqueue(b"app1", vec![1]));
    assert_eq!(table.target_of(b"app1"), Target::Send(2));
    assert!(table.unbind(b"app1", 2));
    assert_eq!(table.target_of(b"app1"), Target::Queue);
    assert_eq!(table.target_of(b"nobody"), Target::Absent);
    assert!(table.enqueue(b"app1", vec![1]));
    assert!(table.enqueue(b"app1", vec![2]));
    let third = table.bind(b"app1", false, 3);
    assert_eq!(third.queued, vec![vec![1], vec![2]]);
    assert!(table.unbind(b"app1", 3));
    table.enqueue(b"app1", vec![3]);
    let fresh = table.bind(b"app1", true, 4);
    assert!(!fresh.session_present);
    assert!(fresh.queued.is_empty());
    assert!(!table.enqueue(b"nobody", vec![1]));
}

#[test]
fn keep_alive_rules() {
    assert!(!keep_alive_expired(2999, 2));
    assert!(keep_alive_expired(3000, 2));
    assert!(!keep_alive_expired(1_000_000, 0));
    assert_eq!(client_keep_alive(1999, None, 2), KeepAliveAction::Wait);
    assert_eq!(client_keep_alive(2000, None, 2), KeepAliveAction::SendPingReq);
    assert_eq!(client_keep_alive(5000, Some(1000), 2), KeepAliveAction::Wait);
    assert_eq!(client_keep_alive(5000, Some(2000), 2), KeepAliveAction::Close(ReasonMode::KeepAliveTimeout));
    assert_eq!(client_keep_alive(5000, None, 0), KeepAliveAction::Wait);
}

#[test]
fn backoff_and_limits() {
    assert_eq!(reconnect_delay_ms(0), 1000);
    assert_eq!(reconnect_delay_ms(1), 2000);
    assert_eq!(reconnect_delay_ms(4), 16000);
    assert_eq!(reconnect_delay_ms(5), 30000);
    assert_eq!(reconnect_delay_ms(40), 30000);
    assert_eq!(with_jitter(1000, 0), 800);
    assert_eq!(with_jitter(1000, 40), 1200);
    assert_eq!(with_jitter(30000, 20), 30000);
    assert_eq!(negotiate_maximum_packet_size(None), Ok(268_435_455));
    assert_eq!(negotiate_maximum_packet_size(Some(1024)), Ok(1024));
    assert_eq!(negotiate_maximum_packet_size(Some(0)), Err(ReasonMode::ProtocolError));
    assert_eq!(check_packet_size(1025, 1024), Err(ReasonMode::PacketTooLarge));
    assert_eq!(check_packet_size(1024, 1024), Ok(()));
}

#[test]
fn server_requires_connect_first() {
    assert_eq!(server_step(ServerPhase::AwaitingConnect, PINGREQ_PACKET), Err(ReasonMode::ProtocolError));
    assert_eq!(server_step(ServerPhase::AwaitingConnect, CONNECT_PACKET), Ok(ServerPhase::Connected));
    assert_eq!(server_step(ServerPhase::Connected, 0x3B), Ok(ServerPhase::Connected));
    assert_eq!(server_step(ServerPhase::Connected, CONNECT_PACKET), Err(ReasonMode::ProtocolError));
    assert_eq!(server_step(ServerPhase::Connected, DISCONNECT_PACKET), Ok(ServerPhase::Closed));
    assert_eq!(server_step(ServerPhase::Closed, PINGREQ_PACKET), Err(ReasonMode::ProtocolError));
}

#[test]
fn client_connection_states() {
    let (s, a) = client_step(ClientState::Disconnected, ClientEvent::ConnectRequested);
    assert_eq!((s, a), (ClientState::Connecting, ClientAction::SendConnect));
    let (s, a) = client_step(s, ClientEvent::ConnackReceived(ReasonMode::Success));
    assert_eq!((s, a), (ClientState::Connected, ClientAction::ReplayInflight));
    let (s, a) = client_step(s, ClientEvent::DisconnectRequested);
    assert_eq!((s, a), (ClientState::Disconnecting, ClientAction::SendDisconnect));
    let (s, a) = client_step(s, ClientEvent::DisconnectSent);
    assert_eq!((s, a), (ClientState::Disconnected, ClientAction::CloseStream));
    let (s, a) = client_step(ClientState::Connecting, ClientEvent::ConnackReceived(ReasonMode::BadUserNameOrPassword));
    assert_eq!((s, a), (ClientState::Disconnected, ClientAction::Fail(ReasonMode::BadUserNameOrPassword)));
    let (s, a) = client_step(ClientState::Connected, ClientEvent::StreamClosed);
    assert_eq!((s, a), (ClientState::Disconnected, ClientAction::CloseStream));
}

#[test]
fn unsubscribe_round_trip_and_unsuback() {
    let u = Unsubscribe { packet_id: 4, properties: vec![], topic_filters: vec![b"a/+".to_vec(), b"b".to_vec()] };
    let mut out = Vec::new();
    u.write_to(&mut out);
    assert_eq!(out, vec![0xA2, 11, 0, 4, 0, 0, 3, b'a', b'/', b'+', 0, 1, b'b']);
    let (back, n) = Unsubscribe::read_from(&out).unwrap();
    assert_eq!(n, out.len());
    assert_eq!(back.topic_filters, vec![b"a/+".to_vec(), b"b".to_vec()]);
    assert_eq!(Unsubscribe::read_from(&[0xA2, 3, 0, 4, 0]).err(), Some(ReasonMode::ProtocolError));
    assert_eq!(Unsubscribe::read_from(&[0xA2, 5, 0, 4, 0, 0, 3]).err(), Some(ReasonMode::MalformedPacket));

    let ack = Unsuback { packet_id: 4, properties: vec![], reason_codes: vec![0x00, 0x00] };
    let mut out = Vec::new();
    ack.write_to(&mut out);
    assert_eq!(out, vec![0xB0, 5, 0, 4, 0, 0x00, 0x00]);
    let (back, _) = Unsuback::read_from(&out).unwrap();
    assert_eq!(back.reason_codes, vec![0x00, 0x00]);
}

#[test]
fn unsubscribe_all_answers_each_filter() {
    let mut router = Router::new();
    let req = Subscribe { packet_id: 1, properties: vec![], topics: vec![request("a", 0), request("b", 1)] };
    router.subscribe_all(b"A", &req);
    router.subscribe_all(b"B", &req);
    let u = Unsubscribe {
        packet_id: 2,
        properties: vec![],
        topic_filters: vec![b"a".to_vec(), b"c".to_vec(), b"a".to_vec()],
    };
    let ack = router.unsubscribe_all(b"A", &u);
    assert_eq!(ack.packet_id, 2);
    assert_eq!(ack.reason_codes, vec![0x00, 0x00, 0x00]);
    assert_eq!(router.subscriptions.len(), 3);
    assert_eq!(ReasonMode::from_id(0x11), None);
    assert_eq!(ReasonMode::from_id(0x42), None);
}

#[test]
fn properties_writable_check() {
    assert!(properties_writable(&vec![]));
    assert!(properties_writable(&vec![user("a", "1"), user("a", "2")]));
    // A repeated identifier other than UserProperty.
    assert!(!properties_writable(&vec![
        Property { id: SERVER_KEEP_ALIVE, value: PropertyValue::TwoByte(1) },
        Property { id: SERVER_KEEP_ALIVE, value: PropertyValue::TwoByte(2) },
    ]));
    // A value of the wrong type, an unknown identifier, a forbidden value.
    assert!(!properties_writable(&vec![Property { id: SERVER_KEEP_ALIVE, value: PropertyValue::Byte(1) }]));
    assert!(!properties_writable(&vec![Property { id: 0x01, value: PropertyValue::Byte(1) }]));
    assert!(!properties_writable(&vec![Property { id: RECEIVE_MAXIMUM, value: PropertyValue::TwoByte(0) }]));
    // A string too long for its two-byte length.
    assert!(!properties_writable(&vec![Property {
        id: REASON_STRING,
        value: PropertyValue::Str(vec![b'a'; 70_000]),
    }]));
}
