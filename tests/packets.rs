use mqtt::connect::{Connect, Will};
use mqtt::fixed_header::{create_publish_header_flags, PacketFixedHeader, PINGREQ_PACKET, PINGRESP_PACKET};
use mqtt::packet::Packet;
use mqtt::pingreq::{PingReq, PingResp};
use mqtt::properties::{Property, PropertyValue, MAXIMUM_PACKET_SIZE, USER_PROPERTY};
use mqtt::publish::Publish;
use mqtt::reason_codes::ReasonMode;
use mqtt::suback::Suback;
use mqtt::vbi::{decode_vbi, write_vbi};

fn user(k: &str, v: &str) -> Property {
    Property { id: USER_PROPERTY, value: PropertyValue::StrPair(k.as_bytes().to_vec(), v.as_bytes().to_vec()) }
}

#[test]
fn pingreq() {
    let pingreq = PingReq::new();

    let mut buffer = Vec::new();
    pingreq.write_to(&mut buffer);

    let buffer = buffer.as_slice();
    let (pingreq_fixed_header, _) = PacketFixedHeader::read_from(buffer).unwrap();

    assert_eq!(pingreq_fixed_header.get_packet_type(), PINGREQ_PACKET);
}

#[test]
fn pingreq_with_body_is_malformed() {
    assert!(PingReq::read_from(0).is_ok());
    assert!(matches!(PingReq::read_from(1), Err(ReasonMode::MalformedPacket)));
    assert!(matches!(PingResp::read_from(3), Err(ReasonMode::MalformedPacket)));
    let mut out = Vec::new();
    PingResp::new().write_to(&mut out);
    assert_eq!(out, vec![PINGRESP_PACKET, 0]);
}

#[test]
fn vbi_known_encodings() {
    let cases: Vec<(u32, Vec<u8>)> = vec![
        (0, vec![0x00]),
        (127, vec![0x7F]),
        (128, vec![0x80, 0x01]),
        (16_383, vec![0xFF, 0x7F]),
        (16_384, vec![0x80, 0x80, 0x01]),
        (268_435_455, vec![0xFF, 0xFF, 0xFF, 0x7F]),
    ];
    for (value, bytes) in cases {
        let mut out = Vec::new();
        write_vbi(value, &mut out);
        assert_eq!(out, bytes);
        assert_eq!(decode_vbi(&out, 0), Ok((value, bytes.len())));
    }
}

#[test]
fn vbi_fifth_continuation_byte_is_malformed() {
    let bytes = [0xFF, 0xFF, 0xFF, 0xFF, 0x01];
    assert_eq!(decode_vbi(&bytes, 0), Err(ReasonMode::MalformedPacket));
    assert_eq!(decode_vbi(&[0x80], 0), Err(ReasonMode::MalformedPacket));
    assert_eq!(decode_vbi(&[], 0), Err(ReasonMode::MalformedPacket));
    assert_eq!(decode_vbi(&[9, 0x80, 0x01], 1), Ok((128, 3)));
}

#[test]
fn fixed_header_round_trip() {
    let header = PacketFixedHeader::new(0x30, 321);
    let bytes = header.as_bytes();
    assert_eq!(bytes, vec![0x30, 0xC1, 0x02]);
    let (back, n) = PacketFixedHeader::read_from(&bytes).unwrap();
    assert_eq!(back, header);
    assert_eq!(n, 3);
}

#[test]
fn publish_header_flags() {
    assert_eq!(create_publish_header_flags(0, 0, 0), 0x30);
    assert_eq!(create_publish_header_flags(1, 1, 1), 0x3B);
    assert_eq!(create_publish_header_flags(0, 1, 0), 0x32);
}

fn publish(topic: &str, payload: &str, qos: u8, retain: bool, packet_id: u16) -> Publish {
    Publish {
        topic: topic.as_bytes().to_vec(),
        packet_id,
        properties: vec![],
        payload: payload.as_bytes().to_vec(),
        qos,
        retain,
        dup: false,
    }
}

#[test]
fn publish_round_trip() {
    let p = publish("bad/messages", "hi", 1, false, 7);
    let mut out = Vec::new();
    p.write_to(&mut out);
    let mut expected = vec![0x32, 19, 0, 12];
    expected.extend_from_slice(b"bad/messages");
    expected.extend_from_slice(&[0, 7, 0]);
    expected.extend_from_slice(b"hi");
    assert_eq!(out, expected);
    out.push(0xAA);
    let (back, n) = Publish::read_from(&out).unwrap();
    assert_eq!(n, out.len() - 1);
    assert_eq!(back.topic, b"bad/messages".to_vec());
    assert_eq!(back.payload, b"hi".to_vec());
    assert_eq!(back.packet_id, 7);
    assert_eq!(back.qos, 1);
    assert!(!back.retain && !back.dup);
}

#[test]
fn publish_qos0_round_trip() {
    let p = publish("sensors/1", "24C", 0, true, 0);
    let mut out = Vec::new();
    p.write_to(&mut out);
    assert_eq!(out[0], 0x31);
    let (back, _) = Publish::read_from(&out).unwrap();
    assert_eq!(back.topic, b"sensors/1".to_vec());
    assert_eq!(back.payload, b"24C".to_vec());
    assert_eq!(back.qos, 0);
    assert!(back.retain);
}

#[test]
fn publish_decode_errors() {
    // QoS 2 and QoS 3 in the header flags.
    assert!(matches!(Publish::read_from(&[0x34, 3, 0, 1, b'a']), Err(ReasonMode::QoSNotSupported)));
    assert!(matches!(Publish::read_from(&[0x36, 3, 0, 1, b'a']), Err(ReasonMode::MalformedPacket)));
    // Body shorter than the remaining length announces.
    assert!(matches!(Publish::read_from(&[0x30, 9, 0, 1]), Err(ReasonMode::MalformedPacket)));
    // Zero packet identifier under QoS 1.
    assert!(matches!(Publish::read_from(&[0x32, 6, 0, 1, b'a', 0, 0, 0]), Err(ReasonMode::MalformedPacket)));
    // Not a PUBLISH.
    assert!(matches!(Publish::read_from(&[0x40, 0]), Err(ReasonMode::MalformedPacket)));
}

#[test]
fn suback_round_trip() {
    let s = Suback::new(10, vec![0x00, 0x01, 0x80]);
    let mut out = Vec::new();
    s.write_to(&mut out);
    assert_eq!(out, vec![0x90, 6, 0, 10, 0, 0x00, 0x01, 0x80]);
    let (back, n) = Suback::read_from(&out).unwrap();
    assert_eq!(back.packet_id, 10);
    assert_eq!(back.reason_codes, vec![0x00, 0x01, 0x80]);
    assert_eq!(n, 8);
    assert!(matches!(Suback::read_from(&[0x90, 2, 0, 1]), Err(ReasonMode::MalformedPacket)));
    // More than 65535 reason codes still fit a remaining length.
    let big = Suback::new(1, vec![0x00; 70_000]);
    let mut out = Vec::new();
    big.write_to(&mut out);
    let (back, n) = Suback::read_from(&out).unwrap();
    assert_eq!(back.reason_codes.len(), 70_000);
    assert_eq!(n, out.len());
}

#[test]
fn connect_round_trip() {
    let c = Connect::new("app1".to_string());
    assert_eq!(c.client_id, b"app1".to_vec());
    assert!(c.clean_start);
    let mut out = Vec::new();
    c.write_to(&mut out);
    assert_eq!(
        out,
        vec![0x10, 17, 0, 4, b'M', b'Q', b'T', b'T', 5, 0x02, 0, 60, 0, 0, 4, b'a', b'p', b'p', b'1']
    );
    let (back, n) = Connect::read_from(&out).unwrap();
    assert_eq!(back.client_id, b"app1".to_vec());
    assert!(back.clean_start);
    assert_eq!(back.keep_alive, 60);
    assert_eq!(n, out.len());
}

#[test]
fn connect_other_protocol_version_is_unsupported() {
    let mut out = Vec::new();
    Connect::new("x".to_string()).write_to(&mut out);
    out[8] = 4;
    assert!(matches!(Connect::read_from(&out), Err(ReasonMode::UnsupportedProtocolVersion)));
    out[8] = 5;
    out[9] = 0x80;
    assert!(matches!(Connect::read_from(&out), Err(ReasonMode::MalformedPacket)));
    out[9] = 0x02;
    assert!(Connect::read_from(&out).is_ok());
    out[15] = 0xFF;
    assert!(matches!(Connect::read_from(&out), Err(ReasonMode::MalformedPacket)));
    out[15] = b'x';
    // A protocol name that is not a valid string is malformed.
    out[4] = 0xFF;
    assert!(matches!(Connect::read_from(&out), Err(ReasonMode::MalformedPacket)));
    // A valid name other than "MQTT" is an unsupported protocol.
    out[4] = b'X';
    assert!(matches!(Connect::read_from(&out), Err(ReasonMode::UnsupportedProtocolVersion)));
}

#[test]
fn reason_code_bytes() {
    assert_eq!(ReasonMode::Success.get_id(), 0x00);
    assert_eq!(ReasonMode::NoMatchingSubscribers.get_id(), 0x10);
    assert_eq!(ReasonMode::MalformedPacket.get_id(), 0x81);
    assert_eq!(ReasonMode::SessionTakenOver.get_id(), 0x8E);
    assert_eq!(ReasonMode::TopicNameInvalid.get_id(), 0x90);
    assert_eq!(ReasonMode::PacketIdentifierInUse.get_id(), 0x91);
    assert_eq!(ReasonMode::QoSNotSupported.get_id(), 0x9B);
}

#[test]
fn publish_with_user_property() {
    let mut p = publish("t", "x", 1, false, 2);
    p.properties = vec![Property {
        id: USER_PROPERTY,
        value: PropertyValue::StrPair(b"k".to_vec(), b"v".to_vec()),
    }];
    let mut out = Vec::new();
    p.write_to(&mut out);
    assert_eq!(out, vec![0x32, 14, 0, 1, b't', 0, 2, 7, 0x26, 0, 1, b'k', 0, 1, b'v', b'x']);
    let (back, _) = Publish::read_from(&out).unwrap();
    assert_eq!(back.properties.len(), 1);
    assert_eq!(back.payload, b"x".to_vec());
    // An unknown property identifier in a PUBLISH.
    assert!(matches!(
        Publish::read_from(&[0x30, 6, 0, 1, b't', 2, 0x01, 0]),
        Err(ReasonMode::MalformedPacket)
    ));
}

#[test]
fn packet_stream_is_read_kind_by_kind() {
    let mut stream = Vec::new();
    Connect::new("c1".to_string()).write_to(&mut stream);
    publish("a/b", "hello", 1, false, 5).write_to(&mut stream);
    PingReq::new().write_to(&mut stream);
    Suback::new(5, vec![0x01]).write_to(&mut stream);
    stream.extend_from_slice(&[0xE0, 0]);
    let mut pos = 0;
    let mut kinds = Vec::new();
    while pos < stream.len() {
        let (packet, n) = Packet::read_from(&stream[pos..]).unwrap();
        kinds.push(match packet {
            Packet::Connect(c) => {
                assert_eq!(c.client_id, b"c1".to_vec());
                "connect"
            }
            Packet::Publish(p) => {
                assert_eq!(p.payload, b"hello".to_vec());
                "publish"
            }
            Packet::PingReq(_) => "pingreq",
            Packet::Suback(s) => {
                assert_eq!(s.reason_codes, vec![0x01]);
                "suback"
            }
            Packet::Disconnect(d) => {
                assert_eq!(d.reason, ReasonMode::Success);
                "disconnect"
            }
            _ => "other",
        });
        pos += n;
    }
    assert_eq!(kinds, vec!["connect", "publish", "pingreq", "suback", "disconnect"]);
    assert!(matches!(Packet::read_from(&[0x00, 0]), Err(ReasonMode::MalformedPacket)));
    assert!(matches!(Packet::read_from(&[0x50, 2, 0, 1]), Err(ReasonMode::ProtocolError)));
    assert!(matches!(Packet::read_from(&[0xC0, 1, 0]), Err(ReasonMode::MalformedPacket)));
    assert!(matches!(Packet::read_from(&[]), Err(ReasonMode::MalformedPacket)));
}

#[test]
fn connect_with_credentials_and_properties() {
    let mut c = Connect::new("app1".to_string());
    c.username = Some(b"user".to_vec());
    c.password = Some(vec![0x00, 0xFF]);
    c.properties = vec![Property { id: MAXIMUM_PACKET_SIZE, value: PropertyValue::FourByte(4096) }];
    c.clean_start = false;
    c.keep_alive = 10;
    let mut out = Vec::new();
    c.write_to(&mut out);
    assert_eq!(out[9], 0xC0);
    let (back, n) = Connect::read_from(&out).unwrap();
    assert_eq!(n, out.len());
    assert_eq!(back.client_id, b"app1".to_vec());
    assert_eq!(back.username, Some(b"user".to_vec()));
    assert_eq!(back.password, Some(vec![0x00, 0xFF]));
    assert!(!back.clean_start);
    assert_eq!(back.keep_alive, 10);
    assert_eq!(back.properties.len(), 1);
    assert!(matches!(back.properties[0].value, PropertyValue::FourByte(4096)));
    // Will QoS without the will flag is malformed.
    let mut bad = Vec::new();
    Connect::new("w".to_string()).write_to(&mut bad);
    bad[9] |= 0x08;
    assert!(matches!(Connect::read_from(&bad), Err(ReasonMode::MalformedPacket)));
}

#[test]
fn connect_with_will() {
    let mut c = Connect::new("w".to_string());
    c.will = Some(Will {
        properties: vec![user("k", "v")],
        topic: b"status/w".to_vec(),
        payload: b"gone".to_vec(),
        qos: 1,
        retain: true,
    });
    let mut out = Vec::new();
    c.write_to(&mut out);
    assert_eq!(out[9], 0x02 | 0x04 | 0x08 | 0x20);
    let (back, n) = Connect::read_from(&out).unwrap();
    assert_eq!(n, out.len());
    let will = back.will.unwrap();
    assert_eq!(will.topic, b"status/w".to_vec());
    assert_eq!(will.payload, b"gone".to_vec());
    assert_eq!(will.qos, 1);
    assert!(will.retain);
    assert_eq!(will.properties.len(), 1);
}
