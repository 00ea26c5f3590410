use mqtt_broker_core::broker::{
    execute, Broker, BrokerAction, HandleEvent, PublishContent, ReturnKind,
};
use mqtt_broker_core::connect::{ConnectMessage, ConnectMessagePayload};
use mqtt_broker_core::message::{PublishMessage, PubrelMessage, SubscribeMessage, UnsubscribeMessage, DisconnectMessage, PingreqMessage};
use mqtt_broker_core::protocol::{MqttProtocolLevel, MqttQos};
use mqtt_broker_core::session::{ServerSession, SessionState};
use mqtt_broker_core::topic::{topic_matches, valid_filter};

fn connect_bytes(client_id: &[u8], clean: bool) -> Vec<u8> {
    ConnectMessage::new(
        b"MQTT".to_vec(),
        MqttProtocolLevel::Level4,
        clean,
        false,
        MqttQos::Qos0,
        false,
        60,
        ConnectMessagePayload {
            client_id: client_id.to_vec(),
            will_topic: None,
            will_message: None,
            user_name: None,
            password: None,
        },
    )
    .bytes
}

fn connect_with_will(client_id: &[u8], topic: &[u8], msg: &[u8]) -> Vec<u8> {
    ConnectMessage::new(
        b"MQTT".to_vec(),
        MqttProtocolLevel::Level4,
        true,
        true,
        MqttQos::Qos0,
        false,
        60,
        ConnectMessagePayload {
            client_id: client_id.to_vec(),
            will_topic: Some(topic.to_vec()),
            will_message: Some(msg.to_vec()),
            user_name: None,
            password: None,
        },
    )
    .bytes
}

fn response_bytes(r: &ReturnKind) -> Vec<u8> {
    match r {
        ReturnKind::Response(b) => b.clone(),
        _ => panic!("expected a response"),
    }
}

/// S1: connect, subscribe, publish QoS 0; the subscriber gets the message,
/// the publisher gets nothing back but the fan-out.
#[test]
fn s1_connect_subscribe_publish_qos0() {
    let mut broker = Broker::new();
    let mut a = ServerSession::new();
    let mut b = ServerSession::new();

    let (r, acts) = execute(&mut broker, &mut a, HandleEvent::InputEvent(connect_bytes(b"a", true)));
    assert_eq!(response_bytes(&r), vec![0x20, 2, 0, 0]);
    assert!(acts.is_empty());

    let sub = SubscribeMessage::new(1, b"room/1".to_vec(), MqttQos::Qos0);
    let (r, acts) = execute(&mut broker, &mut a, HandleEvent::InputEvent(sub.bytes));
    // SUBACK(id=1, codes=[0])
    assert_eq!(response_bytes(&r), vec![0x90, 3, 0, 1, 0]);
    assert!(acts.is_empty());

    let (_, _) = execute(&mut broker, &mut b, HandleEvent::InputEvent(connect_bytes(b"b", true)));
    let publ = PublishMessage::new(MqttQos::Qos0, false, false, b"room/1".to_vec(), 0, b"hi".to_vec());
    let (r, acts) = execute(&mut broker, &mut b, HandleEvent::InputEvent(publ.bytes.clone()));
    assert!(matches!(r, ReturnKind::Continue));
    assert_eq!(acts.len(), 1);
    match &acts[0] {
        BrokerAction::Publish(to, content) => {
            assert_eq!(to, &b"a".to_vec());
            assert_eq!(content.topic, b"room/1".to_vec());
            assert_eq!(content.payload, b"hi".to_vec());
            assert_eq!(content.from_client_id, b"b".to_vec());
        }
        _ => panic!("expected a publish action"),
    }

    // routing the broadcast to A emits the encoded PUBLISH to A's transport
    let content = match &acts[0] {
        BrokerAction::Publish(_, c) => c.clone(),
        _ => unreachable!(),
    };
    let (r, _) = execute(&mut broker, &mut a, HandleEvent::BroadcastEvent(b"b".to_vec(), content));
    let out = response_bytes(&r);
    assert_eq!(out, publ.bytes);
}

/// S2 / P2: a QoS 1 PUBLISH earns exactly one PUBACK with the same id.
#[test]
fn s2_qos1_puback() {
    let mut broker = Broker::new();
    let mut b = ServerSession::new();
    let (_, _) = execute(&mut broker, &mut b, HandleEvent::InputEvent(connect_bytes(b"b", true)));
    let publ = PublishMessage::new(MqttQos::Qos1, false, false, b"room/1".to_vec(), 7, b"x".to_vec());
    let (r, _) = execute(&mut broker, &mut b, HandleEvent::InputEvent(publ.bytes));
    assert_eq!(response_bytes(&r), vec![0x40, 2, 0, 7]);
}

/// S3 / P3: the QoS 2 handshake delivers once even under a DUP retransmit;
/// a second PUBREL broadcasts nothing.
#[test]
fn s3_qos2_exactly_once() {
    let mut broker = Broker::new();
    let mut a = ServerSession::new();
    let mut b = ServerSession::new();
    let (_, _) = execute(&mut broker, &mut a, HandleEvent::InputEvent(connect_bytes(b"a", true)));
    let sub = SubscribeMessage::new(1, b"t".to_vec(), MqttQos::Qos2);
    let (_, _) = execute(&mut broker, &mut a, HandleEvent::InputEvent(sub.bytes));
    let (_, _) = execute(&mut broker, &mut b, HandleEvent::InputEvent(connect_bytes(b"b", true)));

    let publ = PublishMessage::new(MqttQos::Qos2, false, false, b"t".to_vec(), 9, b"y".to_vec());
    let (r, acts) = execute(&mut broker, &mut b, HandleEvent::InputEvent(publ.bytes.clone()));
    assert_eq!(response_bytes(&r), vec![0x50, 2, 0, 9]);
    assert!(acts.is_empty(), "no delivery before PUBREL");

    // DUP retransmission before PUBREL: still nothing delivered
    let dup = PublishMessage::new(MqttQos::Qos2, true, false, b"t".to_vec(), 9, b"y".to_vec());
    let (r, acts) = execute(&mut broker, &mut b, HandleEvent::InputEvent(dup.bytes));
    assert_eq!(response_bytes(&r), vec![0x50, 2, 0, 9]);
    assert!(acts.is_empty());

    // PUBREL completes the handshake and fans out exactly once
    let rel = PubrelMessage::new(9);
    let (r, acts) = execute(&mut broker, &mut b, HandleEvent::InputEvent(rel.bytes.clone()));
    assert_eq!(response_bytes(&r), vec![0x70, 2, 0, 9]);
    assert_eq!(acts.len(), 1);
    match &acts[0] {
        BrokerAction::Publish(to, content) => {
            assert_eq!(to, &b"a".to_vec());
            assert_eq!(content.payload, b"y".to_vec());
        }
        _ => panic!("expected a publish action"),
    }

    // a repeated PUBREL completes an already-complete handshake: no delivery
    let (r, acts) = execute(&mut broker, &mut b, HandleEvent::InputEvent(rel.bytes));
    assert_eq!(response_bytes(&r), vec![0x70, 2, 0, 9]);
    assert!(acts.is_empty());
}

/// S4 / P8: wildcard matching.
#[test]
fn s4_wildcard_matching() {
    assert!(topic_matches(&b"sport/+/score".to_vec(), &b"sport/tennis/score".to_vec()));
    assert!(!topic_matches(&b"sport/+/score".to_vec(), &b"sport/tennis/score/final".to_vec()));
    assert!(topic_matches(&b"news/#".to_vec(), &b"news/eu/today".to_vec()));
    assert!(topic_matches(&b"news/#".to_vec(), &b"news".to_vec()));
    assert!(topic_matches(&b"#".to_vec(), &b"a/b/c".to_vec()));
    assert!(topic_matches(&b"+".to_vec(), &b"a".to_vec()));
    assert!(!topic_matches(&b"+".to_vec(), &b"a/b".to_vec()));
    assert!(!topic_matches(&b"sport/tennis".to_vec(), &b"sport/golf".to_vec()));
    assert!(valid_filter(&b"sport/+/score".to_vec()));
    assert!(valid_filter(&b"news/#".to_vec()));
    assert!(!valid_filter(&b"ne#ws".to_vec()));
    assert!(!valid_filter(&b"a/#/b".to_vec()));
    assert!(!valid_filter(&b"a+b".to_vec()));
    assert!(!valid_filter(&b"".to_vec()));
}

/// P4: a handler never echoes a broadcast back to its own publisher.
#[test]
fn p4_no_self_echo() {
    let mut broker = Broker::new();
    let mut a = ServerSession::new();
    let (_, _) = execute(&mut broker, &mut a, HandleEvent::InputEvent(connect_bytes(b"a", true)));
    let content = PublishContent {
        from_client_id: b"a".to_vec(),
        topic: b"t".to_vec(),
        qos: MqttQos::Qos0,
        retain: false,
        dup: false,
        message_id: 0,
        payload: b"z".to_vec(),
    };
    let (r, acts) = execute(&mut broker, &mut a, HandleEvent::BroadcastEvent(b"a".to_vec(), content));
    assert!(matches!(r, ReturnKind::Continue));
    assert!(acts.is_empty());
}

/// P5: after DISCONNECT with clean session, the in-flight table for the
/// client is empty.
#[test]
fn p5_clean_disconnect_clears_inflight() {
    let mut broker = Broker::new();
    let mut b = ServerSession::new();
    let (_, _) = execute(&mut broker, &mut b, HandleEvent::InputEvent(connect_bytes(b"b", true)));
    let publ = PublishMessage::new(MqttQos::Qos2, false, false, b"t".to_vec(), 9, b"y".to_vec());
    let (_, _) = execute(&mut broker, &mut b, HandleEvent::InputEvent(publ.bytes));
    assert!(broker.container.contains(&b"b".to_vec(), 9));
    let (r, _) = execute(&mut broker, &mut b, HandleEvent::InputEvent(DisconnectMessage::default().bytes));
    assert!(matches!(r, ReturnKind::Exit));
    assert!(!broker.container.contains(&b"b".to_vec(), 9));
    assert_eq!(b.state, SessionState::Terminated);
}

/// S5 / P6: a will registered at CONNECT is broadcast on abnormal
/// disconnect, and only then.
#[test]
fn s5_will_on_abnormal_disconnect() {
    let mut broker = Broker::new();
    let mut a = ServerSession::new();
    let mut b = ServerSession::new();
    let (_, _) = execute(
        &mut broker,
        &mut a,
        HandleEvent::InputEvent(connect_with_will(b"a", b"bye", b"gone")),
    );
    let (_, _) = execute(&mut broker, &mut b, HandleEvent::InputEvent(connect_bytes(b"b", true)));
    let sub = SubscribeMessage::new(1, b"bye".to_vec(), MqttQos::Qos0);
    let (_, _) = execute(&mut broker, &mut b, HandleEvent::InputEvent(sub.bytes));

    // the transport saw an error and asks for the will
    let (r, acts) = execute(&mut broker, &mut a, HandleEvent::ExitEvent(true));
    assert!(matches!(r, ReturnKind::Exit));
    assert_eq!(acts.len(), 1);
    match &acts[0] {
        BrokerAction::Publish(to, content) => {
            assert_eq!(to, &b"b".to_vec());
            assert_eq!(content.topic, b"bye".to_vec());
            assert_eq!(content.payload, b"gone".to_vec());
        }
        _ => panic!("expected a publish action"),
    }
}

/// A graceful DISCONNECT does not publish the will.
#[test]
fn graceful_disconnect_keeps_will_quiet() {
    let mut broker = Broker::new();
    let mut a = ServerSession::new();
    let (_, _) = execute(
        &mut broker,
        &mut a,
        HandleEvent::InputEvent(connect_with_will(b"a", b"bye", b"gone")),
    );
    let (r, acts) = execute(&mut broker, &mut a, HandleEvent::InputEvent(DisconnectMessage::default().bytes));
    assert!(matches!(r, ReturnKind::Exit));
    assert!(acts.is_empty());
}

/// S6: a second CONNECT with the same client id evicts the first live
/// session; the second becomes the live one; the evicted persistent
/// session's subscriptions survive for its successor.
#[test]
fn s6_take_over() {
    let mut broker = Broker::new();
    let mut first = ServerSession::new();
    let mut second = ServerSession::new();
    let (_, acts) = execute(&mut broker, &mut first, HandleEvent::InputEvent(connect_bytes(b"a", false)));
    assert!(acts.is_empty());
    let sub = SubscribeMessage::new(1, b"room/1".to_vec(), MqttQos::Qos0);
    let (_, _) = execute(&mut broker, &mut first, HandleEvent::InputEvent(sub.bytes));
    let (r, acts) = execute(&mut broker, &mut second, HandleEvent::InputEvent(connect_bytes(b"a", false)));
    assert!(matches!(r, ReturnKind::Response(_)));
    assert_eq!(acts.len(), 1);
    match &acts[0] {
        BrokerAction::Evict(to) => assert_eq!(to, &b"a".to_vec()),
        _ => panic!("expected an eviction"),
    }
    // the first handler receives the eviction as an exit without will; its
    // clean_session was false, so the subscription is retained for the
    // session that took the client id over
    let (r, acts) = execute(&mut broker, &mut first, HandleEvent::ExitEvent(false));
    assert!(matches!(r, ReturnKind::Exit));
    assert!(acts.is_empty());
    assert_eq!(second.state, SessionState::Established);
    assert!(broker.subscript.is_subscribed(&b"room/1".to_vec(), &b"a".to_vec()));

    // a third CONNECT under the same id still finds exactly one live "a"
    // and evicts the second session, not itself
    let mut third = ServerSession::new();
    let (r, acts) = execute(&mut broker, &mut third, HandleEvent::InputEvent(connect_bytes(b"a", false)));
    assert!(matches!(r, ReturnKind::Response(_)));
    assert_eq!(acts.len(), 1);
    assert!(matches!(&acts[0], BrokerAction::Evict(_)));
}

/// An evicted clean session takes its subscriptions with it.
#[test]
fn take_over_clean_session_drops_subscriptions() {
    let mut broker = Broker::new();
    let mut first = ServerSession::new();
    let mut second = ServerSession::new();
    let (_, _) = execute(&mut broker, &mut first, HandleEvent::InputEvent(connect_bytes(b"a", true)));
    let sub = SubscribeMessage::new(1, b"room/1".to_vec(), MqttQos::Qos0);
    let (_, _) = execute(&mut broker, &mut first, HandleEvent::InputEvent(sub.bytes));
    let (_, _) = execute(&mut broker, &mut second, HandleEvent::InputEvent(connect_bytes(b"a", true)));
    let (_, _) = execute(&mut broker, &mut first, HandleEvent::ExitEvent(false));
    assert!(!broker.subscript.is_subscribed(&b"room/1".to_vec(), &b"a".to_vec()));
}

/// The first packet on a session must be CONNECT.
#[test]
fn first_packet_must_be_connect() {
    let mut broker = Broker::new();
    let mut s = ServerSession::new();
    let (r, acts) = execute(&mut broker, &mut s, HandleEvent::InputEvent(PingreqMessage::default().bytes));
    assert!(matches!(r, ReturnKind::Exit));
    assert!(acts.is_empty());
    assert_eq!(s.state, SessionState::Terminated);
}

/// A CONNECT whose level byte is no v3 level earns CONNACK 0x01 and then
/// the close, rather than a silent close.
#[test]
fn unknown_protocol_level_gets_connack() {
    let mut broker = Broker::new();
    let mut s = ServerSession::new();
    let mut bytes = connect_bytes(b"a", true);
    // the level byte follows the fixed header (2) and the name field (6)
    assert_eq!(bytes[8], 4);
    bytes[8] = 5;
    let (r, acts) = execute(&mut broker, &mut s, HandleEvent::InputEvent(bytes));
    assert_eq!(response_bytes(&r), vec![0x20, 2, 0, 1]);
    assert!(acts.is_empty());
    assert_eq!(s.state, SessionState::Terminated);
}

/// An unacceptable protocol level earns CONNACK 0x01.
#[test]
fn bad_protocol_level_rejected() {
    let mut broker = Broker::new();
    let mut s = ServerSession::new();
    // name "MQTT" with level 3 is not an acceptable pairing
    let bytes = ConnectMessage::new(
        b"MQTT".to_vec(),
        MqttProtocolLevel::Level3,
        true,
        false,
        MqttQos::Qos0,
        false,
        60,
        ConnectMessagePayload {
            client_id: b"a".to_vec(),
            will_topic: None,
            will_message: None,
            user_name: None,
            password: None,
        },
    )
    .bytes;
    let (r, _) = execute(&mut broker, &mut s, HandleEvent::InputEvent(bytes));
    assert_eq!(response_bytes(&r), vec![0x20, 2, 0, 1]);
    assert_eq!(s.state, SessionState::Terminated);
}

/// An empty client id without a clean session earns CONNACK 0x02.
#[test]
fn empty_client_id_rejected() {
    let mut broker = Broker::new();
    let mut s = ServerSession::new();
    let (r, _) = execute(&mut broker, &mut s, HandleEvent::InputEvent(connect_bytes(b"", false)));
    assert_eq!(response_bytes(&r), vec![0x20, 2, 0, 2]);
    assert_eq!(s.state, SessionState::Terminated);
}

/// SUBSCRIBE with an invalid filter earns the failure code; UNSUBSCRIBE
/// always earns UNSUBACK.
#[test]
fn subscribe_failure_and_unsubscribe() {
    let mut broker = Broker::new();
    let mut s = ServerSession::new();
    let (_, _) = execute(&mut broker, &mut s, HandleEvent::InputEvent(connect_bytes(b"a", true)));
    let sub = SubscribeMessage::new(2, b"ne#ws".to_vec(), MqttQos::Qos1);
    let (r, _) = execute(&mut broker, &mut s, HandleEvent::InputEvent(sub.bytes));
    assert_eq!(response_bytes(&r), vec![0x90, 3, 0, 2, 0x80]);
    let uns = UnsubscribeMessage::new(3, b"absent".to_vec());
    let (r, _) = execute(&mut broker, &mut s, HandleEvent::InputEvent(uns.bytes));
    assert_eq!(response_bytes(&r), vec![0xB0, 2, 0, 3]);
}

/// PINGREQ earns PINGRESP.
#[test]
fn pingreq_earns_pingresp() {
    let mut broker = Broker::new();
    let mut s = ServerSession::new();
    let (_, _) = execute(&mut broker, &mut s, HandleEvent::InputEvent(connect_bytes(b"a", true)));
    let (r, _) = execute(&mut broker, &mut s, HandleEvent::InputEvent(PingreqMessage::default().bytes));
    assert_eq!(response_bytes(&r), vec![0xD0, 0]);
}

/// P7 on concrete values: per-subscriber deliveries of two publishes in
/// order arrive in that order in the emitted action stream.
#[test]
fn p7_per_pair_order_concrete() {
    let mut broker = Broker::new();
    let mut a = ServerSession::new();
    let mut b = ServerSession::new();
    let (_, _) = execute(&mut broker, &mut a, HandleEvent::InputEvent(connect_bytes(b"a", true)));
    let sub = SubscribeMessage::new(1, b"t".to_vec(), MqttQos::Qos0);
    let (_, _) = execute(&mut broker, &mut a, HandleEvent::InputEvent(sub.bytes));
    let (_, _) = execute(&mut broker, &mut b, HandleEvent::InputEvent(connect_bytes(b"b", true)));
    let p1 = PublishMessage::new(MqttQos::Qos0, false, false, b"t".to_vec(), 0, b"one".to_vec());
    let p2 = PublishMessage::new(MqttQos::Qos0, false, false, b"t".to_vec(), 0, b"two".to_vec());
    let (_, acts1) = execute(&mut broker, &mut b, HandleEvent::InputEvent(p1.bytes));
    let (_, acts2) = execute(&mut broker, &mut b, HandleEvent::InputEvent(p2.bytes));
    let stream: Vec<&BrokerAction> = acts1.iter().chain(acts2.iter()).collect();
    let payloads: Vec<Vec<u8>> = stream
        .iter()
        .filter_map(|x| match x {
            BrokerAction::Publish(to, c) if to == &b"a".to_vec() => Some(c.payload.clone()),
            _ => None,
        })
        .collect();
    assert_eq!(payloads, vec![b"one".to_vec(), b"two".to_vec()]);
}
