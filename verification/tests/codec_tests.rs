use mqtt_broker_core::message::{
    BaseMessage, ConnackMessage, PubackMessage, PublishMessage, SubackMessage, SubscribeMessage,
    UnsubackMessage, UnsubscribeMessage, PubrecMessage, PubrelMessage, PubcompMessage,
    PingreqMessage, PingrespMessage, DisconnectMessage, subscribe_batch, MqttMessageKind,
    MqttMessageV3,
};
use mqtt_broker_core::connect::{ConnectMessage, ConnectMessagePayload, BaseConnect};
use mqtt_broker_core::protocol::{DecodeError, MqttProtocolLevel, MqttQos, ReasonCodeV3, TypeKind};

#[test]
fn puback_exact_bytes() {
    let m = PubackMessage::new(7);
    assert_eq!(m.bytes, vec![0x40, 2, 0, 7]);
    assert_eq!(m.message_id, 7);
}

#[test]
fn ack_family_round_trip() {
    let encoded = [
        PubackMessage::new(0x1234).bytes,
        PubrecMessage::new(9).bytes,
        PubrelMessage::new(9).bytes,
        PubcompMessage::new(9).bytes,
        UnsubackMessage::new(511).bytes,
    ];
    let kinds = [
        TypeKind::PUBACK,
        TypeKind::PUBREC,
        TypeKind::PUBREL,
        TypeKind::PUBCOMP,
        TypeKind::UNSUBACK,
    ];
    let mids: [u16; 5] = [0x1234, 9, 9, 9, 511];
    for i in 0..5 {
        let base = BaseMessage::decode(encoded[i].clone()).unwrap();
        assert_eq!(base.msg_type, kinds[i]);
        let mid = match kinds[i] {
            TypeKind::PUBACK => PubackMessage::decode(&base).unwrap().message_id,
            TypeKind::PUBREC => PubrecMessage::decode(&base).unwrap().message_id,
            TypeKind::PUBREL => PubrelMessage::decode(&base).unwrap().message_id,
            TypeKind::PUBCOMP => PubcompMessage::decode(&base).unwrap().message_id,
            _ => UnsubackMessage::decode(&base).unwrap().message_id,
        };
        assert_eq!(mid, mids[i]);
    }
}

#[test]
fn pubrel_has_reserved_flags() {
    let m = PubrelMessage::new(1);
    assert_eq!(m.bytes[0], 0x62);
}

#[test]
fn connack_exact_bytes() {
    let m = ConnackMessage::new(false, ReasonCodeV3::ConnectionAccepted);
    assert_eq!(m.bytes, vec![0x20, 2, 0, 0]);
    let m = ConnackMessage::new(true, ReasonCodeV3::UnacceptableProtocolVersion);
    assert_eq!(m.bytes, vec![0x20, 2, 1, 1]);
    let base = BaseMessage::decode(m.bytes.clone()).unwrap();
    let d = ConnackMessage::decode(&base).unwrap();
    assert!(d.session_present);
    assert_eq!(d.return_code, 1);
}

#[test]
fn publish_qos1_exact_bytes() {
    let m = PublishMessage::new(MqttQos::Qos1, false, false, b"a/b".to_vec(), 7, b"x".to_vec());
    assert_eq!(m.bytes, vec![0x32, 8, 0, 3, 97, 47, 98, 0, 7, 120]);
}

#[test]
fn publish_round_trip_qos0() {
    let m = PublishMessage::new(MqttQos::Qos0, false, true, b"room/1".to_vec(), 0, b"hi".to_vec());
    let base = BaseMessage::decode(m.bytes.clone()).unwrap();
    assert_eq!(base.msg_type, TypeKind::PUBLISH);
    assert_eq!(base.qos, MqttQos::Qos0);
    assert!(base.retain);
    assert!(!base.dup);
    let d = PublishMessage::decode(&base).unwrap();
    assert_eq!(d.topic, b"room/1".to_vec());
    assert_eq!(d.msg_body, b"hi".to_vec());
}

#[test]
fn publish_round_trip_qos2_dup() {
    let m = PublishMessage::new(MqttQos::Qos2, true, false, b"t".to_vec(), 9, b"y".to_vec());
    let base = BaseMessage::decode(m.bytes.clone()).unwrap();
    assert_eq!(base.qos, MqttQos::Qos2);
    assert!(base.dup);
    let d = PublishMessage::decode(&base).unwrap();
    assert_eq!(d.message_id, 9);
    assert_eq!(d.topic, b"t".to_vec());
    assert_eq!(d.msg_body, b"y".to_vec());
}

#[test]
fn publish_long_payload_uses_two_length_bytes() {
    let payload = vec![7u8; 200];
    let m = PublishMessage::new(MqttQos::Qos0, false, false, b"t".to_vec(), 0, payload.clone());
    // remaining length 203 = 0xCB -> 0xCB & 0x7F | 0x80, 0x01
    assert_eq!(m.bytes[1], 203 % 128 + 128);
    assert_eq!(m.bytes[2], 203 / 128);
    let base = BaseMessage::decode(m.bytes.clone()).unwrap();
    let d = PublishMessage::decode(&base).unwrap();
    assert_eq!(d.msg_body, payload);
}

#[test]
fn simple_packets_exact_bytes() {
    assert_eq!(PingreqMessage::default().bytes, vec![0xC0, 0]);
    assert_eq!(PingrespMessage::default().bytes, vec![0xD0, 0]);
    assert_eq!(DisconnectMessage::default().bytes, vec![0xE0, 0]);
}

#[test]
fn malformed_inputs_are_rejected() {
    assert_eq!(BaseMessage::decode(vec![]).unwrap_err(), DecodeError::MalformedPacket);
    assert_eq!(BaseMessage::decode(vec![0x05, 0]).unwrap_err(), DecodeError::UnknownType);
    assert_eq!(
        BaseMessage::decode(vec![0xF5, 0]).unwrap_err(),
        DecodeError::UnknownType
    );
    // four continuation bytes in the remaining length
    assert_eq!(
        BaseMessage::decode(vec![0x40, 0x80, 0x80, 0x80, 0x80]).unwrap_err(),
        DecodeError::MalformedLength
    );
    // remaining length does not cover the buffer
    assert_eq!(
        BaseMessage::decode(vec![0x40, 5, 0, 7]).unwrap_err(),
        DecodeError::MalformedPacket
    );
    // PUBACK with wrong reserved flags
    assert_eq!(
        BaseMessage::decode(vec![0x41, 2, 0, 7]).unwrap_err(),
        DecodeError::MalformedPacket
    );
}

#[test]
fn subscribe_single_round_trip() {
    let m = SubscribeMessage::new(1, b"room/1".to_vec(), MqttQos::Qos0);
    let base = BaseMessage::decode(m.bytes.clone()).unwrap();
    let batch = subscribe_batch(&base).unwrap();
    assert_eq!(batch.len(), 1);
    assert_eq!(batch[0].message_id, 1);
    assert_eq!(batch[0].topic, b"room/1".to_vec());
    assert_eq!(batch[0].qos, MqttQos::Qos0);
}

#[test]
fn subscribe_batch_of_two() {
    // one SUBSCRIBE packet carrying two (filter, qos) pairs
    let mut bytes = vec![0x82, 0];
    let var: Vec<u8> = [
        &[0u8, 5][..],
        &[0, 1, 97, 1][..],  // "a" qos 1
        &[0, 3, 98, 47, 99, 2][..],  // "b/c" qos 2
    ]
    .concat();
    bytes[1] = var.len() as u8;
    bytes.extend_from_slice(&var);
    let base = BaseMessage::decode(bytes).unwrap();
    let batch = subscribe_batch(&base).unwrap();
    assert_eq!(batch.len(), 2);
    assert_eq!(batch[0].topic, b"a".to_vec());
    assert_eq!(batch[0].qos, MqttQos::Qos1);
    assert_eq!(batch[1].topic, b"b/c".to_vec());
    assert_eq!(batch[1].qos, MqttQos::Qos2);
    assert_eq!(batch[1].message_id, 5);
}

#[test]
fn suback_carries_codes_in_order() {
    let m = SubackMessage::with_codes(9, vec![0, 1, 0x80]);
    let base = BaseMessage::decode(m.bytes.clone()).unwrap();
    let d = SubackMessage::decode(&base).unwrap();
    assert_eq!(d.message_id, 9);
    assert_eq!(d.codes, vec![0, 1, 0x80]);
}

#[test]
fn unsubscribe_round_trip() {
    let m = UnsubscribeMessage::new(4, b"room/1".to_vec());
    let base = BaseMessage::decode(m.bytes.clone()).unwrap();
    let d = UnsubscribeMessage::decode(&base).unwrap();
    assert_eq!(d.message_id, 4);
    assert_eq!(d.topic, b"room/1".to_vec());
}

fn connect_payload(client_id: &[u8]) -> ConnectMessagePayload {
    ConnectMessagePayload {
        client_id: client_id.to_vec(),
        will_topic: None,
        will_message: None,
        user_name: None,
        password: None,
    }
}

#[test]
fn connect_round_trip_plain() {
    let m = ConnectMessage::new(
        b"MQTT".to_vec(),
        MqttProtocolLevel::Level4,
        true,
        false,
        MqttQos::Qos0,
        false,
        60,
        connect_payload(b"a"),
    );
    let base = BaseMessage::decode(m.bytes.clone()).unwrap();
    assert_eq!(base.msg_type, TypeKind::CONNECT);
    let d = ConnectMessage::decode(&base).unwrap();
    assert_eq!(d.protocol_name, b"MQTT".to_vec());
    assert_eq!(d.protocol_level, MqttProtocolLevel::Level4);
    assert!(d.clean_session);
    assert!(!d.will_flag);
    assert_eq!(d.keep_alive, 60);
    assert_eq!(d.payload.client_id, b"a".to_vec());
    assert_eq!(d.payload.will_topic, None);
    assert_eq!(d.payload.user_name, None);
}

#[test]
fn connect_round_trip_with_will_and_auth() {
    let payload = ConnectMessagePayload {
        client_id: b"c1".to_vec(),
        will_topic: Some(b"bye".to_vec()),
        will_message: Some(b"gone".to_vec()),
        user_name: Some(b"u".to_vec()),
        password: Some(b"SECRET-REDACTED".to_vec()),
    };
    let m = ConnectMessage::new(
        b"MQIsdp".to_vec(),
        MqttProtocolLevel::Level3,
        false,
        true,
        MqttQos::Qos1,
        true,
        30,
        payload,
    );
    let base = BaseMessage::decode(m.bytes.clone()).unwrap();
    let d = ConnectMessage::decode(&base).unwrap();
    assert_eq!(d.protocol_name, b"MQIsdp".to_vec());
    assert_eq!(d.protocol_level, MqttProtocolLevel::Level3);
    assert!(d.will_flag);
    assert_eq!(d.will_qos, MqttQos::Qos1);
    assert!(d.will_retain);
    assert_eq!(d.payload.will_topic, Some(b"bye".to_vec()));
    assert_eq!(d.payload.will_message, Some(b"gone".to_vec()));
    assert_eq!(d.payload.user_name, Some(b"u".to_vec()));
    assert_eq!(d.payload.password, Some(b"SECRET-REDACTED".to_vec()));
    let bc = BaseConnect::decode(&base).unwrap();
    assert_eq!(bc.get_protocol_name(), b"MQIsdp".to_vec());
    assert_eq!(bc.get_protocol_level(), Some(MqttProtocolLevel::Level3));
}

#[test]
fn connect_reserved_flag_bit_rejected() {
    let m = ConnectMessage::new(
        b"MQTT".to_vec(),
        MqttProtocolLevel::Level4,
        true,
        false,
        MqttQos::Qos0,
        false,
        60,
        connect_payload(b"a"),
    );
    let mut bytes = m.bytes.clone();
    // the flags byte sits after the fixed header (2), name field (6), level (1)
    bytes[9] |= 1;
    let base = BaseMessage::decode(bytes).unwrap();
    assert_eq!(ConnectMessage::decode(&base).unwrap_err(), DecodeError::MalformedPacket);
}

#[test]
fn dispatcher_maps_kinds() {
    let pb = PubackMessage::new(3);
    let base = BaseMessage::decode(pb.bytes.clone()).unwrap();
    let kind = MqttMessageKind::v3(base).unwrap();
    assert!(kind.is_v3());
    match kind.get_v3().unwrap() {
        MqttMessageV3::Puback(m) => assert_eq!(m.message_id, 3),
        _ => panic!("wrong variant"),
    }
    let sm = SubscribeMessage::new(1, b"x".to_vec(), MqttQos::Qos0);
    let base = BaseMessage::decode(sm.bytes.clone()).unwrap();
    let kind = MqttMessageKind::v3(base).unwrap();
    assert!(kind.is_v3s());
    assert_eq!(kind.get_v3s().unwrap().len(), 1);
    // PINGREQ answers with a PINGRESP to send back
    let base = BaseMessage::decode(PingreqMessage::default().bytes.clone()).unwrap();
    let kind = MqttMessageKind::v3(base).unwrap();
    match kind.get_v3().unwrap() {
        MqttMessageV3::Pingresp(m) => assert_eq!(m.bytes, vec![0xD0, 0]),
        _ => panic!("wrong variant"),
    }
}
