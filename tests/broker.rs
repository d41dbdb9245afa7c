use mqtt::acks::Puback;
use mqtt::inflight::{Inflight, RetryAction};
use mqtt::publish::Publish;
use mqtt::reason_codes::ReasonMode;
use mqtt::router::{Router, Subscription};
use mqtt::strings::is_valid_mqtt_string;
use mqtt::topic::{is_valid_topic_filter, is_valid_topic_name, matches_topic, split_levels};

fn sub(client: &str, filter: &str, max_qos: u8, retain_handling: u8) -> Subscription {
    Subscription {
        client_id: client.as_bytes().to_vec(),
        topic_filter: filter.as_bytes().to_vec(),
        max_qos,
        no_local: false,
        retain_as_published: true,
        retain_handling,
    }
}

fn publish(topic: &str, payload: &str, qos: u8, retain: bool, packet_id: u16) -> Publish {
    Publish {
        topic: topic.as_bytes().to_vec(),
        packet_id,
        properties: vec![],
        payload: payload.as_bytes().to_vec(),
        qos,
        retain,
        dup: false,
    }
}

#[test]
fn subscriber_of_wildcard_receives_and_publisher_is_acked() {
    let mut router = Router::new();
    assert!(router.subscribe(sub("A", "bad/#", 1, 0)).unwrap().is_empty());
    let outcome = router.handle_publish(b"B", &publish("bad/messages", "hi", 1, false, 3)).unwrap();
    assert_eq!(outcome.deliveries.len(), 1);
    assert_eq!(outcome.deliveries[0].client_id, b"A".to_vec());
    assert_eq!(outcome.deliveries[0].qos, 1);
    assert_eq!(outcome.puback, Some(3));
}

#[test]
fn retained_message_sent_on_subscribe_and_cleared() {
    let mut router = Router::new();
    let outcome = router.handle_publish(b"B", &publish("sensors/1", "24C", 0, true, 0)).unwrap();
    assert!(outcome.deliveries.is_empty());
    assert_eq!(outcome.puback, None);
    let sent = router.subscribe(sub("C", "sensors/+", 0, 0)).unwrap();
    assert_eq!(sent.len(), 1);
    assert_eq!(sent[0].topic, b"sensors/1".to_vec());
    assert_eq!(sent[0].payload, b"24C".to_vec());
    let outcome = router.handle_publish(b"B", &publish("sensors/1", "", 0, true, 0)).unwrap();
    assert_eq!(outcome.deliveries.len(), 1);
    assert!(outcome.deliveries[0].retain);
    assert!(router.retained.is_empty());
    assert!(router.retained_matching(b"sensors/+").is_empty());
}

#[test]
fn retain_handling_one_and_two() {
    let mut router = Router::new();
    router.handle_publish(b"B", &publish("t", "x", 0, true, 0)).unwrap();
    assert_eq!(router.subscribe(sub("C", "t", 0, 1)).unwrap().len(), 1);
    assert_eq!(router.subscribe(sub("C", "t", 0, 1)).unwrap().len(), 0);
    assert_eq!(router.subscribe(sub("D", "t", 0, 2)).unwrap().len(), 0);
    assert_eq!(router.subscriptions.len(), 2);
}

#[test]
fn qos1_retry_resends_with_dup_and_drains_once() {
    let p = publish("a", "m", 1, false, 1);
    let mut bytes = Vec::new();
    p.write_to(&mut bytes);
    let mut ledger = Inflight::new();
    let id = ledger.allocate_id().unwrap();
    assert_eq!(id, 1);
    ledger.insert(id, bytes.clone()).unwrap();
    match ledger.retransmit(id, 3) {
        RetryAction::Resend(again) => {
            assert_eq!(again[0], bytes[0] | 0x08);
            assert_eq!(&again[1..], &bytes[1..]);
            let (decoded, _) = Publish::read_from(&again).unwrap();
            assert!(decoded.dup);
            assert_eq!(decoded.packet_id, 1);
        }
        _ => panic!("expected a resend"),
    }
    assert_eq!(ledger.entries[0].attempts, 1);
    assert!(ledger.acknowledge(id));
    assert!(!ledger.acknowledge(id));
    assert!(ledger.entries.is_empty());
    assert!(matches!(ledger.retransmit(id, 3), RetryAction::Unknown));
}

#[test]
fn retries_run_out() {
    let mut ledger = Inflight::new();
    ledger.insert(5, vec![0x32, 0]).unwrap();
    assert!(matches!(ledger.retransmit(5, 1), RetryAction::Resend(_)));
    assert!(matches!(ledger.retransmit(5, 1), RetryAction::GiveUp));
    assert!(ledger.contains(5));
}

#[test]
fn publish_to_wildcard_topic_is_refused() {
    let mut router = Router::new();
    router.subscribe(sub("A", "#", 1, 0)).unwrap();
    let r = router.handle_publish(b"B", &publish("a/+/b", "x", 0, false, 0));
    assert!(matches!(r, Err(ReasonMode::TopicNameInvalid)));
    let r = router.handle_publish(b"B", &publish("", "x", 0, false, 0));
    assert!(matches!(r, Err(ReasonMode::TopicNameInvalid)));
    let r = router.handle_publish(b"B", &publish("a", "x", 2, false, 1));
    assert!(matches!(r, Err(ReasonMode::QoSNotSupported)));
}

#[test]
fn two_subscribers_get_their_own_qos() {
    let mut router = Router::new();
    router.subscribe(sub("A", "t", 0, 0)).unwrap();
    router.subscribe(sub("D", "t", 1, 0)).unwrap();
    let outcome = router.handle_publish(b"B", &publish("t", "m", 1, false, 9)).unwrap();
    assert_eq!(outcome.deliveries.len(), 2);
    assert_eq!(outcome.deliveries[0].client_id, b"A".to_vec());
    assert_eq!(outcome.deliveries[0].qos, 0);
    assert_eq!(outcome.deliveries[1].client_id, b"D".to_vec());
    assert_eq!(outcome.deliveries[1].qos, 1);
    assert_eq!(outcome.puback, Some(9));
    // A takes its copy at QoS 0 and owes no PUBACK; D takes it at QoS 1.
    let to_a = publish("t", "m", outcome.deliveries[0].qos, false, 0);
    let to_d = publish("t", "m", outcome.deliveries[1].qos, false, 1);
    assert!(Puback::for_received(&to_a).is_none());
    let ack = Puback::for_received(&to_d).unwrap();
    assert_eq!(ack.packet_id, 1);
    assert_eq!(ack.reason, ReasonMode::Success);
}

#[test]
fn packet_id_reuse_after_ack_only() {
    let mut ledger = Inflight::new();
    assert!(ledger.insert(7, vec![0x32]).is_ok());
    assert!(ledger.acknowledge(7));
    assert!(ledger.insert(7, vec![0x32]).is_ok());
    assert_eq!(ledger.insert(7, vec![0x32]), Err(ReasonMode::PacketIdentifierInUse));
    assert_eq!(ledger.insert(0, vec![0x32]), Err(ReasonMode::ProtocolError));
}

#[test]
fn allocation_is_smallest_free_first() {
    let mut ledger = Inflight::new();
    ledger.insert(1, vec![]).unwrap();
    ledger.insert(2, vec![]).unwrap();
    ledger.insert(4, vec![]).unwrap();
    assert_eq!(ledger.allocate_id(), Some(3));
    ledger.acknowledge(1);
    assert_eq!(ledger.allocate_id(), Some(1));
}

#[test]
fn no_local_and_unsubscribe() {
    let mut router = Router::new();
    let mut s = sub("B", "t", 1, 0);
    s.no_local = true;
    router.subscribe(s).unwrap();
    router.subscribe(sub("A", "t", 1, 0)).unwrap();
    let outcome = router.handle_publish(b"B", &publish("t", "m", 0, true, 0)).unwrap();
    assert_eq!(outcome.deliveries.len(), 1);
    assert_eq!(outcome.deliveries[0].client_id, b"A".to_vec());
    assert!(outcome.deliveries[0].retain);
    assert!(router.unsubscribe(b"A", b"t"));
    assert!(!router.unsubscribe(b"A", b"t"));
    let outcome = router.handle_publish(b"C", &publish("t", "m", 0, false, 0)).unwrap();
    assert_eq!(outcome.deliveries.len(), 1);
    assert_eq!(outcome.deliveries[0].client_id, b"B".to_vec());
}

#[test]
fn subscribe_errors() {
    let mut router = Router::new();
    assert!(matches!(router.subscribe(sub("A", "a/#/b", 0, 0)), Err(ReasonMode::MalformedPacket)));
    assert!(matches!(router.subscribe(sub("A", "a/b+", 0, 0)), Err(ReasonMode::MalformedPacket)));
    assert!(matches!(router.subscribe(sub("A", "a", 2, 0)), Err(ReasonMode::QoSNotSupported)));
    assert!(matches!(router.subscribe(sub("A", "a", 1, 3)), Err(ReasonMode::ProtocolError)));
    assert!(router.subscriptions.is_empty());
}

#[test]
fn topic_match_examples() {
    assert!(matches_topic(b"a/+/c", b"a/b/c"));
    assert!(!matches_topic(b"a/+/c", b"a/b"));
    assert!(matches_topic(b"a/#", b"a"));
    assert!(matches_topic(b"a/#", b"a/b"));
    assert!(matches_topic(b"a/#", b"a/b/c"));
    assert!(matches_topic(b"#", b"x/y/z"));
    assert!(matches_topic(b"#", b"x"));
    assert!(!matches_topic(b"a/b", b"a/c"));
    assert!(matches_topic(b"a/b", b"a/b"));
    assert!(!matches_topic(b"a/b", b"a/b/c"));
    assert!(!is_valid_topic_filter(b"a/#/b"));
    assert!(is_valid_topic_filter(b"a/+/c"));
    assert!(is_valid_topic_filter(b"#"));
    assert!(!is_valid_topic_name(b"a/+/b"));
    assert!(is_valid_topic_name(b"a/b"));
}

#[test]
fn split_keeps_empty_levels() {
    let levels = split_levels(b"/a//b/");
    assert_eq!(levels, vec![vec![], b"a".to_vec(), vec![], b"b".to_vec(), vec![]]);
}

#[test]
fn topics_must_be_valid_strings() {
    assert!(is_valid_mqtt_string("añ/é".as_bytes()));
    assert!(!is_valid_mqtt_string(&[0x61, 0xFF]));
    assert!(!is_valid_mqtt_string(&[0xED, 0xA0, 0x80]));
    assert!(!is_valid_mqtt_string(&[0xC0, 0x80]));
    assert!(!is_valid_mqtt_string(&[0x61, 0x00]));
    assert!(!is_valid_topic_name(&[0x61, 0xFF]));
    let mut router = Router::new();
    let mut p = publish("a", "x", 0, false, 0);
    p.topic = vec![0x61, 0x00];
    assert!(matches!(router.handle_publish(b"B", &p), Err(ReasonMode::TopicNameInvalid)));
    let mut s = sub("A", "a", 0, 0);
    s.topic_filter = vec![0xFF];
    assert!(matches!(router.subscribe(s), Err(ReasonMode::MalformedPacket)));
}
