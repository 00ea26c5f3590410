//! MQTT v3 protocol constants: control packet kinds, quality-of-service
//! levels, protocol levels, CONNACK reason codes, and the codec error kinds,
//! together with their wire representations.

use vstd::prelude::*;

verus! {

/// The fourteen MQTT v3 control packet kinds. The wire value is the upper
/// nibble of the first byte of a packet; see [`spec_type_nibble`].
#[derive(Clone, Copy, Debug, PartialEq, Eq, Structural)]
pub enum TypeKind {
    CONNECT,
    CONNACK,
    PUBLISH,
    PUBACK,
    PUBREC,
    PUBREL,
    PUBCOMP,
    SUBSCRIBE,
    SUBACK,
    UNSUBSCRIBE,
    UNSUBACK,
    PINGREQ,
    PINGRESP,
    DISCONNECT,
}

/// Quality of service: at-most-once, at-least-once, exactly-once, plus the
/// failure sentinel used in SUBACK return codes.
#[derive(Clone, Copy, Debug, PartialEq, Eq, Structural)]
pub enum MqttQos {
    Qos0,
    Qos1,
    Qos2,
    Failure,
}

/// Protocol level recorded at CONNECT: 3 is v3.1 (name `MQIsdp`), 4 is
/// v3.1.1 (name `MQTT`).
#[derive(Clone, Copy, Debug, PartialEq, Eq, Structural)]
pub enum MqttProtocolLevel {
    Level3,
    Level4,
}

/// CONNACK return codes of MQTT v3.1.1.
#[derive(Clone, Copy, Debug, PartialEq, Eq, Structural)]
pub enum ReasonCodeV3 {
    ConnectionAccepted,
    UnacceptableProtocolVersion,
    IdentifierRejected,
    ServerUnavailable,
    BadUsernameOrPassword,
    NotAuthorized,
}

/// Why a byte buffer failed to decode as an MQTT v3 control packet.
#[derive(Clone, Copy, Debug, PartialEq, Eq, Structural)]
pub enum DecodeError {
    /// The upper nibble of the first byte is 0 or 15.
    UnknownType,
    /// The remaining-length varint is malformed: a fourth byte still has the
    /// continuation bit set, or the buffer ends inside the varint.
    MalformedLength,
    /// Reserved flag bits are wrong, a field is truncated, or the remaining
    /// length disagrees with the buffer.
    MalformedPacket,
    /// A CONNECT parsed whole, but its protocol level byte is not a v3
    /// level; the handler answers CONNACK with the matching return code.
    UnacceptableLevel,
}

/// Wire value of a packet kind: the upper nibble of the fixed header byte.
pub open spec fn spec_type_nibble(k: TypeKind) -> u8 {
    match k {
        TypeKind::CONNECT => 1,
        TypeKind::CONNACK => 2,
        TypeKind::PUBLISH => 3,
        TypeKind::PUBACK => 4,
        TypeKind::PUBREC => 5,
        TypeKind::PUBREL => 6,
        TypeKind::PUBCOMP => 7,
        TypeKind::SUBSCRIBE => 8,
        TypeKind::SUBACK => 9,
        TypeKind::UNSUBSCRIBE => 10,
        TypeKind::UNSUBACK => 11,
        TypeKind::PINGREQ => 12,
        TypeKind::PINGRESP => 13,
        TypeKind::DISCONNECT => 14,
    }
}

/// Packet kind for a wire nibble; `None` for the reserved values 0 and 15.
pub open spec fn spec_type_of_nibble(n: u8) -> Option<TypeKind> {
    if n == 1 { Some(TypeKind::CONNECT) }
    else if n == 2 { Some(TypeKind::CONNACK) }
    else if n == 3 { Some(TypeKind::PUBLISH) }
    else if n == 4 { Some(TypeKind::PUBACK) }
    else if n == 5 { Some(TypeKind::PUBREC) }
    else if n == 6 { Some(TypeKind::PUBREL) }
    else if n == 7 { Some(TypeKind::PUBCOMP) }
    else if n == 8 { Some(TypeKind::SUBSCRIBE) }
    else if n == 9 { Some(TypeKind::SUBACK) }
    else if n == 10 { Some(TypeKind::UNSUBSCRIBE) }
    else if n == 11 { Some(TypeKind::UNSUBACK) }
    else if n == 12 { Some(TypeKind::PINGREQ) }
    else if n == 13 { Some(TypeKind::PINGRESP) }
    else if n == 14 { Some(TypeKind::DISCONNECT) }
    else { None }
}

pub fn type_nibble(k: TypeKind) -> (r: u8)
    ensures
        r == spec_type_nibble(k),
{
    match k {
        TypeKind::CONNECT => 1,
        TypeKind::CONNACK => 2,
        TypeKind::PUBLISH => 3,
        TypeKind::PUBACK => 4,
        TypeKind::PUBREC => 5,
        TypeKind::PUBREL => 6,
        TypeKind::PUBCOMP => 7,
        TypeKind::SUBSCRIBE => 8,
        TypeKind::SUBACK => 9,
        TypeKind::UNSUBSCRIBE => 10,
        TypeKind::UNSUBACK => 11,
        TypeKind::PINGREQ => 12,
        TypeKind::PINGRESP => 13,
        TypeKind::DISCONNECT => 14,
    }
}

pub fn type_of_nibble(n: u8) -> (r: Option<TypeKind>)
    ensures
        r == spec_type_of_nibble(n),
{
    if n == 1 { Some(TypeKind::CONNECT) }
    else if n == 2 { Some(TypeKind::CONNACK) }
    else if n == 3 { Some(TypeKind::PUBLISH) }
    else if n == 4 { Some(TypeKind::PUBACK) }
    else if n == 5 { Some(TypeKind::PUBREC) }
    else if n == 6 { Some(TypeKind::PUBREL) }
    else if n == 7 { Some(TypeKind::PUBCOMP) }
    else if n == 8 { Some(TypeKind::SUBSCRIBE) }
    else if n == 9 { Some(TypeKind::SUBACK) }
    else if n == 10 { Some(TypeKind::UNSUBSCRIBE) }
    else if n == 11 { Some(TypeKind::UNSUBACK) }
    else if n == 12 { Some(TypeKind::PINGREQ) }
    else if n == 13 { Some(TypeKind::PINGRESP) }
    else if n == 14 { Some(TypeKind::DISCONNECT) }
    else { None }
}

/// Wire value of a QoS level; the SUBACK failure sentinel is 0x80.
pub open spec fn spec_qos_byte(q: MqttQos) -> u8 {
    match q {
        MqttQos::Qos0 => 0,
        MqttQos::Qos1 => 1,
        MqttQos::Qos2 => 2,
        MqttQos::Failure => 0x80,
    }
}

/// QoS level for the two bits of a PUBLISH fixed header or a SUBSCRIBE
/// payload byte; 3 is reserved.
pub open spec fn spec_qos_of_bits(b: u8) -> Option<MqttQos> {
    if b == 0 { Some(MqttQos::Qos0) }
    else if b == 1 { Some(MqttQos::Qos1) }
    else if b == 2 { Some(MqttQos::Qos2) }
    else { None }
}

pub fn qos_byte(q: MqttQos) -> (r: u8)
    ensures
        r == spec_qos_byte(q),
{
    match q {
        MqttQos::Qos0 => 0,
        MqttQos::Qos1 => 1,
        MqttQos::Qos2 => 2,
        MqttQos::Failure => 0x80,
    }
}

pub fn qos_of_bits(b: u8) -> (r: Option<MqttQos>)
    ensures
        r == spec_qos_of_bits(b),
{
    if b == 0 { Some(MqttQos::Qos0) }
    else if b == 1 { Some(MqttQos::Qos1) }
    else if b == 2 { Some(MqttQos::Qos2) }
    else { None }
}

/// Wire value of a protocol level byte.
pub open spec fn spec_level_byte(l: MqttProtocolLevel) -> u8 {
    match l {
        MqttProtocolLevel::Level3 => 3,
        MqttProtocolLevel::Level4 => 4,
    }
}

pub open spec fn spec_level_of_byte(b: u8) -> Option<MqttProtocolLevel> {
    if b == 3 { Some(MqttProtocolLevel::Level3) }
    else if b == 4 { Some(MqttProtocolLevel::Level4) }
    else { None }
}

pub fn level_byte(l: MqttProtocolLevel) -> (r: u8)
    ensures
        r == spec_level_byte(l),
{
    match l {
        MqttProtocolLevel::Level3 => 3,
        MqttProtocolLevel::Level4 => 4,
    }
}

pub fn level_of_byte(b: u8) -> (r: Option<MqttProtocolLevel>)
    ensures
        r == spec_level_of_byte(b),
{
    if b == 3 { Some(MqttProtocolLevel::Level3) }
    else if b == 4 { Some(MqttProtocolLevel::Level4) }
    else { None }
}

/// Wire value of a CONNACK return code.
pub open spec fn spec_reason_byte(c: ReasonCodeV3) -> u8 {
    match c {
        ReasonCodeV3::ConnectionAccepted => 0,
        ReasonCodeV3::UnacceptableProtocolVersion => 1,
        ReasonCodeV3::IdentifierRejected => 2,
        ReasonCodeV3::ServerUnavailable => 3,
        ReasonCodeV3::BadUsernameOrPassword => 4,
        ReasonCodeV3::NotAuthorized => 5,
    }
}

pub fn reason_byte(c: ReasonCodeV3) -> (r: u8)
    ensures
        r == spec_reason_byte(c),
{
    match c {
        ReasonCodeV3::ConnectionAccepted => 0,
        ReasonCodeV3::UnacceptableProtocolVersion => 1,
        ReasonCodeV3::IdentifierRejected => 2,
        ReasonCodeV3::ServerUnavailable => 3,
        ReasonCodeV3::BadUsernameOrPassword => 4,
        ReasonCodeV3::NotAuthorized => 5,
    }
}

} // verus!
