//! The MQTT v3 control packet set: one struct per packet, each carrying its
//! decoded fields together with its wire bytes. Constructors encode, the
//! `decode` functions parse, and both are proved against spec-level encoders
//! and parsers. Round-trip lemmas show that decoding an encoded packet
//! recovers exactly the fields that were encoded.

use vstd::prelude::*;
use crate::protocol::{
    TypeKind, MqttQos, MqttProtocolLevel, ReasonCodeV3, DecodeError, spec_type_nibble,
    spec_type_of_nibble, spec_qos_byte, spec_qos_of_bits, spec_reason_byte, type_nibble,
    type_of_nibble, qos_byte, qos_of_bits, reason_byte,
};
use crate::codec::{
    spec_u16_be, spec_parse_u16, spec_rl_encode, spec_rl_parse, spec_field_encode,
    spec_parse_field, seq_has_at, lemma_has_at_concat, lemma_has_at_index, lemma_u16_round_trip,
    lemma_rl_round_trip, lemma_field_round_trip, read_u16, write_u16, write_rl, read_rl,
    write_field, write_bytes, read_field, write_byte, lemma_add_empty, lemma_concat_five,
    MAX_REMAINING_LENGTH,
};

verus! {

/// What the fixed header of a packet says: the kind and, for PUBLISH, the
/// dup, QoS and retain flags (false and QoS 0 elsewhere).
pub struct BaseView {
    pub kind: TypeKind,
    pub dup: bool,
    pub qos: MqttQos,
    pub retain: bool,
}

/// The flag nibble every packet but PUBLISH must carry: 2 for PUBREL,
/// SUBSCRIBE and UNSUBSCRIBE, else 0.
pub open spec fn spec_expected_flags(k: TypeKind) -> u8 {
    match k {
        TypeKind::PUBREL => 2,
        TypeKind::SUBSCRIBE => 2,
        TypeKind::UNSUBSCRIBE => 2,
        _ => 0,
    }
}

pub fn expected_flags(k: TypeKind) -> (r: u8)
    ensures
        r == spec_expected_flags(k),
{
    match k {
        TypeKind::PUBREL => 2,
        TypeKind::SUBSCRIBE => 2,
        TypeKind::UNSUBSCRIBE => 2,
        _ => 0,
    }
}

/// Parses the fixed header of a whole packet: the kind nibble and flags of
/// the first byte, the remaining-length varint, and the check that the
/// remaining length covers exactly the rest of the buffer. PUBLISH flags
/// carry dup, QoS and retain; every other kind must carry its reserved flag
/// nibble exactly.
pub open spec fn spec_parse_base(s: Seq<u8>) -> Result<BaseView, DecodeError> {
    if s.len() == 0 {
        Err(DecodeError::MalformedPacket)
    } else {
        let flags = s[0] % 16;
        match spec_type_of_nibble(s[0] / 16) {
            None => Err(DecodeError::UnknownType),
            Some(kind) => match spec_rl_parse(s, 1) {
                None => Err(DecodeError::MalformedLength),
                Some((n, l)) => if 1 + l + n != s.len() {
                    Err(DecodeError::MalformedPacket)
                } else if kind == TypeKind::PUBLISH {
                    match spec_qos_of_bits((flags / 2) % 4) {
                        None => Err(DecodeError::MalformedPacket),
                        Some(q) => Ok(
                            BaseView {
                                kind,
                                dup: flags >= 8,
                                qos: q,
                                retain: flags % 2 == 1,
                            },
                        ),
                    }
                } else if flags == spec_expected_flags(kind) {
                    Ok(BaseView { kind, dup: false, qos: MqttQos::Qos0, retain: false })
                } else {
                    Err(DecodeError::MalformedPacket)
                },
            },
        }
    }
}

/// First index after the fixed header: where the variable header starts.
/// Meaningful when the remaining-length varint parses.
pub open spec fn spec_var_start(s: Seq<u8>) -> int {
    1 + (spec_rl_parse(s, 1)->0).1
}

/// A message carries a packet kind.
pub trait MqttMessage {
    fn get_message_type(&self) -> TypeKind;
}

/// A message that carries its own wire bytes.
pub trait MqttBytesMessage: MqttMessage {
    fn as_bytes(&self) -> &[u8];
}

/// A packet whose fixed header has been decoded: the kind and flags, and
/// the whole packet's bytes.
#[derive(Debug)]
pub struct BaseMessage {
    pub msg_type: TypeKind,
    pub dup: bool,
    pub qos: MqttQos,
    pub retain: bool,
    pub bytes: Vec<u8>,
}

impl BaseMessage {
    /// The fields agree with what the fixed header of `bytes` says.
    pub open spec fn wf(self) -> bool {
        spec_parse_base(self.bytes@) == Ok::<BaseView, DecodeError>(
            BaseView { kind: self.msg_type, dup: self.dup, qos: self.qos, retain: self.retain },
        )
    }

    /// Decodes the fixed header of a whole packet.
    pub fn decode(data: Vec<u8>) -> (r: Result<BaseMessage, DecodeError>)
        ensures
            match r {
                Ok(b) => b.wf() && b.bytes@ == data@,
                Err(e) => spec_parse_base(data@) == Err::<BaseView, DecodeError>(e),
            },
    {
        if data.len() == 0 {
            return Err(DecodeError::MalformedPacket);
        }
        let b0 = data[0];
        let kind = match type_of_nibble(b0 / 16) {
            Some(k) => k,
            None => {
                return Err(DecodeError::UnknownType);
            },
        };
        let (n, l) = match read_rl(&data, 1) {
            Ok(p) => p,
            Err(_) => {
                return Err(DecodeError::MalformedLength);
            },
        };
        if n as usize != data.len() - 1 - l {
            return Err(DecodeError::MalformedPacket);
        }
        let flags = b0 % 16;
        if kind == TypeKind::PUBLISH {
            let q = match qos_of_bits((flags / 2) % 4) {
                Some(q) => q,
                None => {
                    return Err(DecodeError::MalformedPacket);
                },
            };
            Ok(BaseMessage { msg_type: kind, dup: flags >= 8, qos: q, retain: flags % 2 == 1, bytes: data })
        } else {
            if flags != expected_flags(kind) {
                return Err(DecodeError::MalformedPacket);
            }
            Ok(
                BaseMessage {
                    msg_type: kind,
                    dup: false,
                    qos: MqttQos::Qos0,
                    retain: false,
                    bytes: data,
                },
            )
        }
    }
}

impl MqttMessage for BaseMessage {
    fn get_message_type(&self) -> TypeKind {
        self.msg_type
    }
}

// ---------------------------------------------------------------------------
// Packets with no variable header: PINGREQ, PINGRESP, DISCONNECT
// ---------------------------------------------------------------------------

/// The two-byte encoding of a packet with remaining length zero.
pub open spec fn spec_encode_simple(k: TypeKind) -> Seq<u8> {
    seq![(spec_type_nibble(k) * 16 + spec_expected_flags(k)) as u8, 0]
}

/// Parsing the encoding of an empty-bodied packet recovers its kind.
pub proof fn lemma_simple_round_trip(k: TypeKind)
    requires
        k == TypeKind::PINGREQ || k == TypeKind::PINGRESP || k == TypeKind::DISCONNECT,
    ensures
        spec_parse_base(spec_encode_simple(k)) == Ok::<BaseView, DecodeError>(
            BaseView { kind: k, dup: false, qos: MqttQos::Qos0, retain: false },
        ),
{
    let s = spec_encode_simple(k);
    assert(s[1] == 0);
    assert(spec_rl_parse(s, 1) == Some((0u32, 1int)));
}

/// Builds the two fixed-header bytes of an empty-bodied packet.
pub fn encode_simple(k: TypeKind) -> (r: Vec<u8>)
    ensures
        r@ == spec_encode_simple(k),
{
    let mut out: Vec<u8> = Vec::new();
    out.push(type_nibble(k) * 16 + expected_flags(k));
    out.push(0);
    assert(out@ =~= spec_encode_simple(k));
    out
}

/// A PINGREQ packet.
#[derive(Clone, Debug)]
pub struct PingreqMessage {
    pub msg_type: TypeKind,
    pub bytes: Vec<u8>,
}

impl PingreqMessage {
    pub open spec fn wf(self) -> bool {
        self.msg_type == TypeKind::PINGREQ && self.bytes@ == spec_encode_simple(TypeKind::PINGREQ)
    }
}

impl Default for PingreqMessage {
    /// The canonical PINGREQ packet.
    fn default() -> (r: Self)
        ensures
            r.wf(),
    {
        PingreqMessage { msg_type: TypeKind::PINGREQ, bytes: encode_simple(TypeKind::PINGREQ) }
    }
}

impl MqttMessage for PingreqMessage {
    fn get_message_type(&self) -> TypeKind {
        self.msg_type
    }
}

impl MqttBytesMessage for PingreqMessage {
    fn as_bytes(&self) -> &[u8] {
        self.bytes.as_slice()
    }
}

/// A PINGRESP packet.
#[derive(Clone, Debug)]
pub struct PingrespMessage {
    pub msg_type: TypeKind,
    pub bytes: Vec<u8>,
}

impl PingrespMessage {
    pub open spec fn wf(self) -> bool {
        self.msg_type == TypeKind::PINGRESP && self.bytes@ == spec_encode_simple(
            TypeKind::PINGRESP,
        )
    }
}

impl Default for PingrespMessage {
    /// The canonical PINGRESP packet.
    fn default() -> (r: Self)
        ensures
            r.wf(),
    {
        PingrespMessage { msg_type: TypeKind::PINGRESP, bytes: encode_simple(TypeKind::PINGRESP) }
    }
}

impl MqttMessage for PingrespMessage {
    fn get_message_type(&self) -> TypeKind {
        self.msg_type
    }
}

impl MqttBytesMessage for PingrespMessage {
    fn as_bytes(&self) -> &[u8] {
        self.bytes.as_slice()
    }
}

/// A DISCONNECT packet.
#[derive(Clone, Debug)]
pub struct DisconnectMessage {
    pub msg_type: TypeKind,
    pub bytes: Vec<u8>,
}

impl DisconnectMessage {
    pub open spec fn wf(self) -> bool {
        self.msg_type == TypeKind::DISCONNECT && self.bytes@ == spec_encode_simple(
            TypeKind::DISCONNECT,
        )
    }
}

impl Default for DisconnectMessage {
    /// The canonical DISCONNECT packet.
    fn default() -> (r: Self)
        ensures
            r.wf(),
    {
        DisconnectMessage {
            msg_type: TypeKind::DISCONNECT,
            bytes: encode_simple(TypeKind::DISCONNECT),
        }
    }
}

impl MqttMessage for DisconnectMessage {
    fn get_message_type(&self) -> TypeKind {
        self.msg_type
    }
}

impl MqttBytesMessage for DisconnectMessage {
    fn as_bytes(&self) -> &[u8] {
        self.bytes.as_slice()
    }
}

// ---------------------------------------------------------------------------
// Acknowledgement packets: PUBACK, PUBREC, PUBREL, PUBCOMP, UNSUBACK
// ---------------------------------------------------------------------------

/// The four-byte encoding of an acknowledgement packet: fixed header with
/// the kind's reserved flags, remaining length 2, and the packet identifier.
pub open spec fn spec_encode_ack(k: TypeKind, mid: u16) -> Seq<u8> {
    seq![(spec_type_nibble(k) * 16 + spec_expected_flags(k)) as u8, 2] + spec_u16_be(mid)
}

/// The packet identifier right after the fixed header.
pub open spec fn spec_parse_mid(s: Seq<u8>) -> Option<u16> {
    spec_parse_u16(s, spec_var_start(s))
}

/// Parsing an encoded acknowledgement packet recovers its kind and its
/// packet identifier.
pub proof fn lemma_ack_round_trip(k: TypeKind, mid: u16)
    requires
        k == TypeKind::PUBACK || k == TypeKind::PUBREC || k == TypeKind::PUBREL || k
            == TypeKind::PUBCOMP || k == TypeKind::UNSUBACK,
    ensures
        spec_parse_base(spec_encode_ack(k, mid)) == Ok::<BaseView, DecodeError>(
            BaseView { kind: k, dup: false, qos: MqttQos::Qos0, retain: false },
        ),
        spec_parse_mid(spec_encode_ack(k, mid)) == Some(mid),
{
    let s = spec_encode_ack(k, mid);
    assert(s[1] == 2);
    assert(spec_rl_parse(s, 1) == Some((2u32, 1int)));
    assert(s[2] == mid / 256 && s[3] == mid % 256);
    assert((mid / 256) * 256 + mid % 256 == mid) by (nonlinear_arith)
        requires mid >= 0;
}

/// Builds the four bytes of an acknowledgement packet.
pub fn encode_ack(k: TypeKind, mid: u16) -> (r: Vec<u8>)
    ensures
        r@ == spec_encode_ack(k, mid),
{
    let mut out: Vec<u8> = Vec::new();
    out.push(type_nibble(k) * 16 + expected_flags(k));
    out.push(2);
    write_u16(&mut out, mid);
    assert(out@ =~= spec_encode_ack(k, mid));
    out
}

/// Reads the packet identifier of a packet whose variable header starts
/// with one, such as the acknowledgement packets.
pub fn read_message_id(base: &BaseMessage) -> (r: Result<u16, DecodeError>)
    requires
        base.wf(),
    ensures
        match r {
            Ok(mid) => spec_parse_mid(base.bytes@) == Some(mid),
            Err(e) => e == DecodeError::MalformedPacket && spec_parse_mid(base.bytes@) is None,
        },
{
    let (n, l) = match read_rl(&base.bytes, 1) {
        Ok(p) => p,
        Err(_) => {
            proof {
                assert(false);
            }
            return Err(DecodeError::MalformedPacket);
        },
    };
    if n < 2 {
        return Err(DecodeError::MalformedPacket);
    }
    Ok(read_u16(&base.bytes, 1 + l))
}

/// A PUBACK packet.
#[derive(Clone, Debug)]
pub struct PubackMessage {
    pub msg_type: TypeKind,
    pub message_id: u16,
    pub bytes: Vec<u8>,
}

impl PubackMessage {
    pub open spec fn wf(self) -> bool {
        self.msg_type == TypeKind::PUBACK && self.bytes@ == spec_encode_ack(
            TypeKind::PUBACK,
            self.message_id,
        )
    }

    /// A PUBACK for the given packet identifier.
    pub fn new(message_id: u16) -> (r: Self)
        ensures
            r.wf(),
            r.message_id == message_id,
    {
        PubackMessage {
            msg_type: TypeKind::PUBACK,
            message_id,
            bytes: encode_ack(TypeKind::PUBACK, message_id),
        }
    }

    /// Decodes a PUBACK packet: its packet identifier.
    pub fn decode(base: &BaseMessage) -> (r: Result<Self, DecodeError>)
        requires
            base.wf(),
            base.msg_type == TypeKind::PUBACK,
        ensures
            match r {
                Ok(m) => spec_parse_mid(base.bytes@) == Some(m.message_id) && m.msg_type
                    == TypeKind::PUBACK && m.wf(),
                Err(e) => e == DecodeError::MalformedPacket && spec_parse_mid(base.bytes@)
                    is None,
            },
    {
        let mid = read_message_id(base)?;
        Ok(PubackMessage::new(mid))
    }
}

impl MqttMessage for PubackMessage {
    fn get_message_type(&self) -> TypeKind {
        self.msg_type
    }
}

impl MqttBytesMessage for PubackMessage {
    fn as_bytes(&self) -> &[u8] {
        self.bytes.as_slice()
    }
}

/// A PUBREC packet.
#[derive(Clone, Debug)]
pub struct PubrecMessage {
    pub msg_type: TypeKind,
    pub message_id: u16,
    pub bytes: Vec<u8>,
}

impl PubrecMessage {
    pub open spec fn wf(self) -> bool {
        self.msg_type == TypeKind::PUBREC && self.bytes@ == spec_encode_ack(
            TypeKind::PUBREC,
            self.message_id,
        )
    }

    /// A PUBREC for the given packet identifier.
    pub fn new(message_id: u16) -> (r: Self)
        ensures
            r.wf(),
            r.message_id == message_id,
    {
        PubrecMessage {
            msg_type: TypeKind::PUBREC,
            message_id,
            bytes: encode_ack(TypeKind::PUBREC, message_id),
        }
    }

    /// Decodes a PUBREC packet: its packet identifier.
    pub fn decode(base: &BaseMessage) -> (r: Result<Self, DecodeError>)
        requires
            base.wf(),
            base.msg_type == TypeKind::PUBREC,
        ensures
            match r {
                Ok(m) => spec_parse_mid(base.bytes@) == Some(m.message_id) && m.msg_type
                    == TypeKind::PUBREC && m.wf(),
                Err(e) => e == DecodeError::MalformedPacket && spec_parse_mid(base.bytes@)
                    is None,
            },
    {
        let mid = read_message_id(base)?;
        Ok(PubrecMessage::new(mid))
    }
}

impl MqttMessage for PubrecMessage {
    fn get_message_type(&self) -> TypeKind {
        self.msg_type
    }
}

impl MqttBytesMessage for PubrecMessage {
    fn as_bytes(&self) -> &[u8] {
        self.bytes.as_slice()
    }
}

/// A PUBREL packet. Its fixed-header flags are 2.
#[derive(Clone, Debug)]
pub struct PubrelMessage {
    pub msg_type: TypeKind,
    pub message_id: u16,
    pub bytes: Vec<u8>,
}

impl PubrelMessage {
    pub open spec fn wf(self) -> bool {
        self.msg_type == TypeKind::PUBREL && self.bytes@ == spec_encode_ack(
            TypeKind::PUBREL,
            self.message_id,
        )
    }

    /// A PUBREL for the given packet identifier.
    pub fn new(message_id: u16) -> (r: Self)
        ensures
            r.wf(),
            r.message_id == message_id,
    {
        PubrelMessage {
            msg_type: TypeKind::PUBREL,
            message_id,
            bytes: encode_ack(TypeKind::PUBREL, message_id),
        }
    }

    /// Decodes a PUBREL packet: its packet identifier.
    pub fn decode(base: &BaseMessage) -> (r: Result<Self, DecodeError>)
        requires
            base.wf(),
            base.msg_type == TypeKind::PUBREL,
        ensures
            match r {
                Ok(m) => spec_parse_mid(base.bytes@) == Some(m.message_id) && m.msg_type
                    == TypeKind::PUBREL && m.wf(),
                Err(e) => e == DecodeError::MalformedPacket && spec_parse_mid(base.bytes@)
                    is None,
            },
    {
        let mid = read_message_id(base)?;
        Ok(PubrelMessage::new(mid))
    }
}

impl MqttMessage for PubrelMessage {
    fn get_message_type(&self) -> TypeKind {
        self.msg_type
    }
}

impl MqttBytesMessage for PubrelMessage {
    fn as_bytes(&self) -> &[u8] {
        self.bytes.as_slice()
    }
}

/// A PUBCOMP packet.
#[derive(Clone, Debug)]
pub struct PubcompMessage {
    pub msg_type: TypeKind,
    pub message_id: u16,
    pub bytes: Vec<u8>,
}

impl PubcompMessage {
    pub open spec fn wf(self) -> bool {
        self.msg_type == TypeKind::PUBCOMP && self.bytes@ == spec_encode_ack(
            TypeKind::PUBCOMP,
            self.message_id,
        )
    }

    /// A PUBCOMP for the given packet identifier.
    pub fn new(message_id: u16) -> (r: Self)
        ensures
            r.wf(),
            r.message_id == message_id,
    {
        PubcompMessage {
            msg_type: TypeKind::PUBCOMP,
            message_id,
            bytes: encode_ack(TypeKind::PUBCOMP, message_id),
        }
    }

    /// Decodes a PUBCOMP packet: its packet identifier.
    pub fn decode(base: &BaseMessage) -> (r: Result<Self, DecodeError>)
        requires
            base.wf(),
            base.msg_type == TypeKind::PUBCOMP,
        ensures
            match r {
                Ok(m) => spec_parse_mid(base.bytes@) == Some(m.message_id) && m.msg_type
                    == TypeKind::PUBCOMP && m.wf(),
                Err(e) => e == DecodeError::MalformedPacket && spec_parse_mid(base.bytes@)
                    is None,
            },
    {
        let mid = read_message_id(base)?;
        Ok(PubcompMessage::new(mid))
    }
}

impl MqttMessage for PubcompMessage {
    fn get_message_type(&self) -> TypeKind {
        self.msg_type
    }
}

impl MqttBytesMessage for PubcompMessage {
    fn as_bytes(&self) -> &[u8] {
        self.bytes.as_slice()
    }
}

/// An UNSUBACK packet.
#[derive(Clone, Debug)]
pub struct UnsubackMessage {
    pub msg_type: TypeKind,
    pub message_id: u16,
    pub bytes: Vec<u8>,
}

impl UnsubackMessage {
    pub open spec fn wf(self) -> bool {
        self.msg_type == TypeKind::UNSUBACK && self.bytes@ == spec_encode_ack(
            TypeKind::UNSUBACK,
            self.message_id,
        )
    }

    /// An UNSUBACK for the given packet identifier.
    pub fn new(message_id: u16) -> (r: Self)
        ensures
            r.wf(),
            r.message_id == message_id,
    {
        UnsubackMessage {
            msg_type: TypeKind::UNSUBACK,
            message_id,
            bytes: encode_ack(TypeKind::UNSUBACK, message_id),
        }
    }

    /// Decodes an UNSUBACK packet: its packet identifier.
    pub fn decode(base: &BaseMessage) -> (r: Result<Self, DecodeError>)
        requires
            base.wf(),
            base.msg_type == TypeKind::UNSUBACK,
        ensures
            match r {
                Ok(m) => spec_parse_mid(base.bytes@) == Some(m.message_id) && m.msg_type
                    == TypeKind::UNSUBACK && m.wf(),
                Err(e) => e == DecodeError::MalformedPacket && spec_parse_mid(base.bytes@)
                    is None,
            },
    {
        let mid = read_message_id(base)?;
        Ok(UnsubackMessage::new(mid))
    }
}

impl MqttMessage for UnsubackMessage {
    fn get_message_type(&self) -> TypeKind {
        self.msg_type
    }
}

impl MqttBytesMessage for UnsubackMessage {
    fn as_bytes(&self) -> &[u8] {
        self.bytes.as_slice()
    }
}

// ---------------------------------------------------------------------------
// CONNACK
// ---------------------------------------------------------------------------

/// The four-byte encoding of a CONNACK packet: fixed header, remaining
/// length 2, session-present byte, return code.
pub open spec fn spec_encode_connack(session_present: bool, return_code: u8) -> Seq<u8> {
    seq![0x20, 2, if session_present { 1u8 } else { 0u8 }, return_code]
}

/// The session-present flag and return code of a CONNACK packet.
pub open spec fn spec_parse_connack(s: Seq<u8>) -> Option<(bool, u8)> {
    let v = spec_var_start(s);
    if v + 2 <= s.len() && (s[v] == 0 || s[v] == 1) {
        Some((s[v] == 1, s[v + 1]))
    } else {
        None
    }
}

/// Parsing an encoded CONNACK packet recovers its two fields.
pub proof fn lemma_connack_round_trip(session_present: bool, return_code: u8)
    ensures
        spec_parse_base(spec_encode_connack(session_present, return_code)) == Ok::<
            BaseView,
            DecodeError,
        >(BaseView { kind: TypeKind::CONNACK, dup: false, qos: MqttQos::Qos0, retain: false }),
        spec_parse_connack(spec_encode_connack(session_present, return_code)) == Some(
            (session_present, return_code),
        ),
{
    let s = spec_encode_connack(session_present, return_code);
    assert(s[1] == 2);
    assert(spec_rl_parse(s, 1) == Some((2u32, 1int)));
}

/// A CONNACK packet.
#[derive(Clone, Debug)]
pub struct ConnackMessage {
    pub msg_type: TypeKind,
    pub session_present: bool,
    pub return_code: u8,
    pub bytes: Vec<u8>,
}

impl ConnackMessage {
    pub open spec fn wf(self) -> bool {
        self.msg_type == TypeKind::CONNACK && self.bytes@ == spec_encode_connack(
            self.session_present,
            self.return_code,
        )
    }

    /// A CONNACK with the given session-present flag and return code.
    pub fn new(session_present: bool, return_code: ReasonCodeV3) -> (r: Self)
        ensures
            r.wf(),
            r.session_present == session_present,
            r.return_code == spec_reason_byte(return_code),
    {
        let rc = reason_byte(return_code);
        let mut out: Vec<u8> = Vec::new();
        out.push(0x20);
        out.push(2);
        out.push(if session_present { 1 } else { 0 });
        out.push(rc);
        assert(out@ =~= spec_encode_connack(session_present, rc));
        ConnackMessage { msg_type: TypeKind::CONNACK, session_present, return_code: rc, bytes: out }
    }

    /// Decodes a CONNACK packet: the session-present flag and return code.
    pub fn decode(base: &BaseMessage) -> (r: Result<Self, DecodeError>)
        requires
            base.wf(),
            base.msg_type == TypeKind::CONNACK,
        ensures
            match r {
                Ok(m) => spec_parse_connack(base.bytes@) == Some(
                    (m.session_present, m.return_code),
                ) && m.msg_type == TypeKind::CONNACK && m.wf(),
                Err(e) => e == DecodeError::MalformedPacket && spec_parse_connack(base.bytes@)
                    is None,
            },
    {
        let (n, l) = match read_rl(&base.bytes, 1) {
            Ok(p) => p,
            Err(_) => {
                proof {
                    assert(false);
                }
                return Err(DecodeError::MalformedPacket);
            },
        };
        if n < 2 {
            return Err(DecodeError::MalformedPacket);
        }
        let sp = base.bytes[1 + l];
        if sp > 1 {
            return Err(DecodeError::MalformedPacket);
        }
        let rc = base.bytes[1 + l + 1];
        let mut out: Vec<u8> = Vec::new();
        out.push(0x20);
        out.push(2);
        out.push(sp);
        out.push(rc);
        assert(out@ =~= spec_encode_connack(sp == 1, rc));
        Ok(
            ConnackMessage {
                msg_type: TypeKind::CONNACK,
                session_present: sp == 1,
                return_code: rc,
                bytes: out,
            },
        )
    }
}

impl Default for ConnackMessage {
    /// A CONNACK that accepts the connection with no session present.
    fn default() -> (r: Self)
        ensures
            r.wf(),
            r.session_present == false,
            r.return_code == spec_reason_byte(ReasonCodeV3::ConnectionAccepted),
    {
        ConnackMessage::new(false, ReasonCodeV3::ConnectionAccepted)
    }
}

impl MqttMessage for ConnackMessage {
    fn get_message_type(&self) -> TypeKind {
        self.msg_type
    }
}

impl MqttBytesMessage for ConnackMessage {
    fn as_bytes(&self) -> &[u8] {
        self.bytes.as_slice()
    }
}

// ---------------------------------------------------------------------------
// PUBLISH
// ---------------------------------------------------------------------------

/// The variable part of a PUBLISH packet: the topic field, the packet
/// identifier when QoS is above 0, then the payload.
pub open spec fn spec_publish_var(topic: Seq<u8>, qos: MqttQos, mid: u16, body: Seq<u8>) -> Seq<
    u8,
> {
    spec_field_encode(topic) + (if qos == MqttQos::Qos0 {
        Seq::<u8>::empty()
    } else {
        spec_u16_be(mid)
    }) + body
}

/// The fixed-header byte of a PUBLISH packet: kind nibble 3, then dup,
/// QoS and retain bits.
pub open spec fn spec_publish_header(dup: bool, qos: MqttQos, retain: bool) -> u8 {
    (48 + (if dup { 8int } else { 0int }) + spec_qos_byte(qos) * 2 + (if retain {
        1int
    } else {
        0int
    })) as u8
}

/// The whole encoding of a PUBLISH packet.
pub open spec fn spec_encode_publish(
    dup: bool,
    qos: MqttQos,
    retain: bool,
    topic: Seq<u8>,
    mid: u16,
    body: Seq<u8>,
) -> Seq<u8> {
    let var = spec_publish_var(topic, qos, mid, body);
    seq![spec_publish_header(dup, qos, retain)] + spec_rl_encode(var.len() as u32) + var
}

/// The topic, packet identifier (0 when QoS is 0) and payload of a PUBLISH
/// packet whose fixed header carried `qos`.
pub open spec fn spec_parse_publish(s: Seq<u8>, qos: MqttQos) -> Option<(Seq<u8>, u16, Seq<u8>)> {
    let v = spec_var_start(s);
    match spec_parse_field(s, v) {
        None => None,
        Some((topic, c)) => if qos == MqttQos::Qos0 {
            Some((topic, 0, s.skip(v + c)))
        } else {
            match spec_parse_u16(s, v + c) {
                None => None,
                Some(mid) => Some((topic, mid, s.skip(v + c + 2))),
            }
        },
    }
}

/// Parsing an encoded PUBLISH packet recovers the flags, topic, packet
/// identifier and payload.
pub proof fn lemma_publish_round_trip(
    dup: bool,
    qos: MqttQos,
    retain: bool,
    topic: Seq<u8>,
    mid: u16,
    body: Seq<u8>,
)
    requires
        qos != MqttQos::Failure,
        topic.len() <= 0xFFFF,
        4 + topic.len() + body.len() <= MAX_REMAINING_LENGTH,
    ensures
        spec_parse_base(spec_encode_publish(dup, qos, retain, topic, mid, body)) == Ok::<
            BaseView,
            DecodeError,
        >(BaseView { kind: TypeKind::PUBLISH, dup, qos, retain }),
        spec_parse_publish(spec_encode_publish(dup, qos, retain, topic, mid, body), qos) == Some(
            (topic, if qos == MqttQos::Qos0 { 0u16 } else { mid }, body),
        ),
{
    let var = spec_publish_var(topic, qos, mid, body);
    let s = spec_encode_publish(dup, qos, retain, topic, mid, body);
    let hdr = spec_publish_header(dup, qos, retain);
    let rl = spec_rl_encode(var.len() as u32);
    let d8: int = if dup { 8 } else { 0 };
    let qb: int = spec_qos_byte(qos) as int;
    let r1: int = if retain { 1 } else { 0 };
    assert(qb <= 2);
    assert(hdr == 48 + d8 + 2 * qb + r1);
    assert(hdr / 16 == 3 && hdr % 16 == d8 + 2 * qb + r1) by (nonlinear_arith)
        requires
            hdr == 48 + d8 + 2 * qb + r1,
            d8 == 0 || d8 == 8,
            0 <= qb <= 2,
            0 <= r1 <= 1,
    ;
    let flags = hdr % 16;
    assert((flags >= 8) == dup);
    assert((flags / 2) % 4 == qb && flags % 2 == r1) by (nonlinear_arith)
        requires
            flags == d8 + 2 * qb + r1,
            d8 == 0 || d8 == 8,
            0 <= qb <= 2,
            0 <= r1 <= 1,
    ;
    assert(spec_qos_of_bits((flags / 2) % 4 as u8) == Some(qos));
    // locate the remaining-length varint and the variable part
    assert(seq_has_at(s, 0, seq![hdr] + (rl + var))) by {
        reveal(crate::codec::seq_has_at);
        assert(s.subrange(0, s.len() as int) =~= s);
        assert(s =~= seq![hdr] + (rl + var));
    }
    lemma_has_at_concat(s, 0, seq![hdr], rl + var);
    lemma_has_at_concat(s, 1, rl, var);
    lemma_rl_round_trip(s, 1, var.len() as u32);
    let v = 1 + rl.len() as int;
    assert(spec_var_start(s) == v);
    assert(1 + rl.len() + var.len() == s.len());
    // the topic field, the identifier, the payload
    let midpart = if qos == MqttQos::Qos0 {
        Seq::<u8>::empty()
    } else {
        spec_u16_be(mid)
    };
    assert(seq_has_at(s, v, (spec_field_encode(topic) + midpart) + body));
    lemma_has_at_concat(s, v, spec_field_encode(topic) + midpart, body);
    lemma_has_at_concat(s, v, spec_field_encode(topic), midpart);
    lemma_field_round_trip(s, v, topic);
    let c = 2 + topic.len() as int;
    if qos == MqttQos::Qos0 {
        assert(s.skip(v + c) =~= body) by {
            assert forall|k: int| 0 <= k < body.len() implies s.skip(v + c)[k] == body[k] by {
                lemma_has_at_index(s, v + c, body, k);
            }
        }
    } else {
        lemma_u16_round_trip(s, v + c, mid);
        assert(s.skip(v + c + 2) =~= body) by {
            assert forall|k: int| 0 <= k < body.len() implies s.skip(v + c + 2)[k] == body[k] by {
                lemma_has_at_index(s, v + c + 2, body, k);
            }
        }
    }
}

/// A PUBLISH packet.
#[derive(Clone, Debug)]
pub struct PublishMessage {
    pub msg_type: TypeKind,
    pub message_id: u16,
    pub topic: Vec<u8>,
    pub dup: bool,
    pub qos: MqttQos,
    pub retain: bool,
    pub msg_body: Vec<u8>,
    pub bytes: Vec<u8>,
}

impl PublishMessage {
    /// The fields are what `bytes` parses to; the identifier is meaningful
    /// only when QoS is above 0.
    pub open spec fn wf(self) -> bool {
        &&& self.msg_type == TypeKind::PUBLISH
        &&& self.qos != MqttQos::Failure
        &&& spec_parse_base(self.bytes@) == Ok::<BaseView, DecodeError>(
            BaseView { kind: TypeKind::PUBLISH, dup: self.dup, qos: self.qos, retain: self.retain },
        )
        &&& spec_parse_publish(self.bytes@, self.qos) == Some(
            (
                self.topic@,
                if self.qos == MqttQos::Qos0 {
                    0u16
                } else {
                    self.message_id
                },
                self.msg_body@,
            ),
        )
    }

    /// A PUBLISH with the given flags, topic, identifier and payload,
    /// canonically encoded.
    #[verifier::rlimit(50)]
    pub fn new(
        qos: MqttQos,
        dup: bool,
        retain: bool,
        topic: Vec<u8>,
        message_id: u16,
        msg_body: Vec<u8>,
    ) -> (r: Self)
        requires
            qos != MqttQos::Failure,
            topic@.len() <= 0xFFFF,
            4 + topic@.len() + msg_body@.len() <= MAX_REMAINING_LENGTH,
        ensures
            r.wf(),
            r.qos == qos,
            r.dup == dup,
            r.retain == retain,
            r.topic@ == topic@,
            r.message_id == message_id,
            r.msg_body@ == msg_body@,
            r.bytes@ == spec_encode_publish(dup, qos, retain, topic@, message_id, msg_body@),
    {
        let header: u8 = 48 + (if dup { 8 } else { 0 }) + qos_byte(qos) * 2 + (if retain {
            1
        } else {
            0
        });
        let varlen: usize = 2 + topic.len() + (if qos == MqttQos::Qos0 { 0 } else { 2 })
            + msg_body.len();
        let mut out: Vec<u8> = Vec::new();
        write_byte(&mut out, header);
        write_rl(&mut out, varlen as u32);
        write_field(&mut out, &topic);
        let ghost pre_mid = out@;
        if qos != MqttQos::Qos0 {
            write_u16(&mut out, message_id);
        }
        proof {
            if qos == MqttQos::Qos0 {
                lemma_add_empty(pre_mid);
            }
        }
        write_bytes(&mut out, &msg_body);
        proof {
            let varseq = spec_publish_var(topic@, qos, message_id, msg_body@);
            let midseq = if qos == MqttQos::Qos0 {
                Seq::<u8>::empty()
            } else {
                spec_u16_be(message_id)
            };
            assert(header == spec_publish_header(dup, qos, retain));
            assert(varlen == varseq.len());
            let rl = spec_rl_encode(varlen as u32);
            assert(out@ == Seq::<u8>::empty() + seq![header] + rl + spec_field_encode(topic@)
                + midseq + msg_body@);
            lemma_concat_five(seq![header], rl, spec_field_encode(topic@), midseq, msg_body@);
            assert(out@ == spec_encode_publish(dup, qos, retain, topic@, message_id, msg_body@));
            lemma_publish_round_trip(dup, qos, retain, topic@, message_id, msg_body@);
        }
        PublishMessage {
            msg_type: TypeKind::PUBLISH,
            message_id,
            topic,
            dup,
            qos,
            retain,
            msg_body,
            bytes: out,
        }
    }

    /// Decodes a PUBLISH packet: topic, identifier when QoS is above 0, and
    /// payload.
    pub fn decode(base: &BaseMessage) -> (r: Result<Self, DecodeError>)
        requires
            base.wf(),
            base.msg_type == TypeKind::PUBLISH,
        ensures
            match r {
                Ok(m) => {
                    &&& spec_parse_publish(base.bytes@, base.qos) == Some(
                        (m.topic@, m.message_id, m.msg_body@),
                    )
                    &&& m.msg_type == TypeKind::PUBLISH
                    &&& m.dup == base.dup
                    &&& m.qos == base.qos
                    &&& m.retain == base.retain
                    &&& m.bytes@ == base.bytes@
                },
                Err(e) => e == DecodeError::MalformedPacket && spec_parse_publish(
                    base.bytes@,
                    base.qos,
                ) is None,
            },
    {
        let (n, l) = match read_rl(&base.bytes, 1) {
            Ok(p) => p,
            Err(_) => {
                proof {
                    assert(false);
                }
                return Err(DecodeError::MalformedPacket);
            },
        };
        let v = 1 + l;
        let (topic, c) = read_field(&base.bytes, v)?;
        let pos = v + c;
        let blen = base.bytes.len();
        let (mid, bodystart) = if base.qos == MqttQos::Qos0 {
            (0u16, pos)
        } else {
            if pos + 2 > blen {
                return Err(DecodeError::MalformedPacket);
            }
            (read_u16(&base.bytes, pos), pos + 2)
        };
        let mut body: Vec<u8> = Vec::new();
        let mut k: usize = bodystart;
        while k < blen
            invariant
                bodystart <= k <= blen,
                blen == base.bytes@.len(),
                body@ == base.bytes@.subrange(bodystart as int, k as int),
            decreases blen - k,
        {
            body.push(base.bytes[k]);
            assert(body@ =~= base.bytes@.subrange(bodystart as int, k + 1 as int));
            k = k + 1;
        }
        proof {
            assert(base.bytes@.subrange(bodystart as int, blen as int) =~= base.bytes@.skip(
                bodystart as int,
            ));
        }
        Ok(
            PublishMessage {
                msg_type: TypeKind::PUBLISH,
                message_id: mid,
                topic,
                dup: base.dup,
                qos: base.qos,
                retain: base.retain,
                msg_body: body,
                bytes: base.bytes.clone(),
            },
        )
    }
}

impl MqttMessage for PublishMessage {
    fn get_message_type(&self) -> TypeKind {
        self.msg_type
    }
}

impl MqttBytesMessage for PublishMessage {
    fn as_bytes(&self) -> &[u8] {
        self.bytes.as_slice()
    }
}

// ---------------------------------------------------------------------------
// SUBACK
// ---------------------------------------------------------------------------

/// The encoding of a SUBACK packet: fixed header, remaining length, packet
/// identifier, then one return-code byte per granted filter.
pub open spec fn spec_encode_suback(mid: u16, codes: Seq<u8>) -> Seq<u8> {
    seq![0x90u8] + spec_rl_encode((2 + codes.len()) as u32) + spec_u16_be(mid) + codes
}

/// The packet identifier and return codes of a SUBACK packet.
pub open spec fn spec_parse_suback(s: Seq<u8>) -> Option<(u16, Seq<u8>)> {
    let v = spec_var_start(s);
    match spec_parse_u16(s, v) {
        None => None,
        Some(mid) => Some((mid, s.skip(v + 2))),
    }
}

/// Parsing an encoded SUBACK packet recovers the identifier and the codes.
pub proof fn lemma_suback_round_trip(mid: u16, codes: Seq<u8>)
    requires
        2 + codes.len() <= MAX_REMAINING_LENGTH,
    ensures
        spec_parse_base(spec_encode_suback(mid, codes)) == Ok::<BaseView, DecodeError>(
            BaseView { kind: TypeKind::SUBACK, dup: false, qos: MqttQos::Qos0, retain: false },
        ),
        spec_parse_suback(spec_encode_suback(mid, codes)) == Some((mid, codes)),
{
    let s = spec_encode_suback(mid, codes);
    let rl = spec_rl_encode((2 + codes.len()) as u32);
    let var = spec_u16_be(mid) + codes;
    assert(seq_has_at(s, 0, seq![0x90u8] + (rl + var))) by {
        reveal(crate::codec::seq_has_at);
        assert(s.subrange(0, s.len() as int) =~= s);
        assert(s =~= seq![0x90u8] + (rl + var));
    }
    lemma_has_at_concat(s, 0, seq![0x90u8], rl + var);
    lemma_has_at_concat(s, 1, rl, var);
    lemma_rl_round_trip(s, 1, (2 + codes.len()) as u32);
    let v = 1 + rl.len() as int;
    assert(spec_var_start(s) == v);
    lemma_has_at_concat(s, v, spec_u16_be(mid), codes);
    lemma_u16_round_trip(s, v, mid);
    assert(s.skip(v + 2) =~= codes) by {
        assert forall|k: int| 0 <= k < codes.len() implies s.skip(v + 2)[k] == codes[k] by {
            lemma_has_at_index(s, v + 2, codes, k);
        }
    }
}

/// A SUBACK packet.
#[derive(Clone, Debug)]
pub struct SubackMessage {
    pub msg_type: TypeKind,
    pub message_id: u16,
    pub codes: Vec<u8>,
    pub bytes: Vec<u8>,
}

impl SubackMessage {
    pub open spec fn wf(self) -> bool {
        self.msg_type == TypeKind::SUBACK && self.bytes@ == spec_encode_suback(
            self.message_id,
            self.codes@,
        )
    }

    /// A SUBACK carrying the given return codes in order.
    pub fn with_codes(message_id: u16, codes: Vec<u8>) -> (r: Self)
        requires
            2 + codes@.len() <= MAX_REMAINING_LENGTH,
        ensures
            r.wf(),
            r.message_id == message_id,
            r.codes@ == codes@,
    {
        let mut out: Vec<u8> = Vec::new();
        out.push(0x90);
        write_rl(&mut out, (2 + codes.len()) as u32);
        write_u16(&mut out, message_id);
        write_bytes(&mut out, &codes);
        assert(out@ =~= spec_encode_suback(message_id, codes@));
        SubackMessage { msg_type: TypeKind::SUBACK, message_id, codes, bytes: out }
    }

    /// A SUBACK granting the one requested QoS, or reporting the failure
    /// sentinel.
    pub fn new(message_id: u16, qos: MqttQos) -> (r: Self)
        ensures
            r.wf(),
            r.message_id == message_id,
            r.codes@ == seq![spec_qos_byte(qos)],
    {
        let mut codes: Vec<u8> = Vec::new();
        codes.push(qos_byte(qos));
        assert(codes@ =~= seq![spec_qos_byte(qos)]);
        SubackMessage::with_codes(message_id, codes)
    }

    /// The SUBACK answering one SUBSCRIBE: the same identifier, one code
    /// granting the requested QoS.
    pub fn for_subscribe(smsg: &SubscribeMessage) -> (r: Self)
        ensures
            r.wf(),
            r.message_id == smsg.message_id,
            r.codes@ == seq![spec_qos_byte(smsg.qos)],
    {
        SubackMessage::new(smsg.message_id, smsg.qos)
    }

    /// Decodes a SUBACK packet: the identifier and the return codes.
    pub fn decode(base: &BaseMessage) -> (r: Result<Self, DecodeError>)
        requires
            base.wf(),
            base.msg_type == TypeKind::SUBACK,
        ensures
            match r {
                Ok(m) => spec_parse_suback(base.bytes@) == Some((m.message_id, m.codes@))
                    && m.msg_type == TypeKind::SUBACK && m.bytes@ == base.bytes@,
                Err(e) => e == DecodeError::MalformedPacket && spec_parse_suback(base.bytes@)
                    is None,
            },
    {
        let (n, l) = match read_rl(&base.bytes, 1) {
            Ok(p) => p,
            Err(_) => {
                proof {
                    assert(false);
                }
                return Err(DecodeError::MalformedPacket);
            },
        };
        if n < 2 {
            return Err(DecodeError::MalformedPacket);
        }
        let mid = read_u16(&base.bytes, 1 + l);
        let blen = base.bytes.len();
        let start = 1 + l + 2;
        let mut codes: Vec<u8> = Vec::new();
        let mut k: usize = start;
        while k < blen
            invariant
                start <= k <= blen,
                blen == base.bytes@.len(),
                codes@ == base.bytes@.subrange(start as int, k as int),
            decreases blen - k,
        {
            codes.push(base.bytes[k]);
            assert(codes@ =~= base.bytes@.subrange(start as int, k + 1 as int));
            k = k + 1;
        }
        proof {
            assert(base.bytes@.subrange(start as int, blen as int) =~= base.bytes@.skip(
                start as int,
            ));
        }
        Ok(SubackMessage { msg_type: TypeKind::SUBACK, message_id: mid, codes, bytes: base.bytes.clone() })
    }
}

impl MqttMessage for SubackMessage {
    fn get_message_type(&self) -> TypeKind {
        self.msg_type
    }
}

impl MqttBytesMessage for SubackMessage {
    fn as_bytes(&self) -> &[u8] {
        self.bytes.as_slice()
    }
}

// ---------------------------------------------------------------------------
// UNSUBSCRIBE
// ---------------------------------------------------------------------------

/// The encoding of an UNSUBSCRIBE packet carrying one topic filter.
pub open spec fn spec_encode_unsubscribe(mid: u16, topic: Seq<u8>) -> Seq<u8> {
    seq![0xA2u8] + spec_rl_encode((4 + topic.len()) as u32) + spec_u16_be(mid)
        + spec_field_encode(topic)
}

/// The packet identifier and first topic filter of an UNSUBSCRIBE packet.
pub open spec fn spec_parse_unsubscribe(s: Seq<u8>) -> Option<(u16, Seq<u8>)> {
    let v = spec_var_start(s);
    match spec_parse_u16(s, v) {
        None => None,
        Some(mid) => match spec_parse_field(s, v + 2) {
            None => None,
            Some((topic, c)) => Some((mid, topic)),
        },
    }
}

/// Parsing an encoded UNSUBSCRIBE packet recovers the identifier and the
/// filter.
pub proof fn lemma_unsubscribe_round_trip(mid: u16, topic: Seq<u8>)
    requires
        topic.len() <= 0xFFFF,
        4 + topic.len() <= MAX_REMAINING_LENGTH,
    ensures
        spec_parse_base(spec_encode_unsubscribe(mid, topic)) == Ok::<BaseView, DecodeError>(
            BaseView { kind: TypeKind::UNSUBSCRIBE, dup: false, qos: MqttQos::Qos0, retain: false },
        ),
        spec_parse_unsubscribe(spec_encode_unsubscribe(mid, topic)) == Some((mid, topic)),
{
    let s = spec_encode_unsubscribe(mid, topic);
    let rl = spec_rl_encode((4 + topic.len()) as u32);
    let var = spec_u16_be(mid) + spec_field_encode(topic);
    assert(seq_has_at(s, 0, seq![0xA2u8] + (rl + var))) by {
        reveal(crate::codec::seq_has_at);
        assert(s.subrange(0, s.len() as int) =~= s);
        assert(s =~= seq![0xA2u8] + (rl + var));
    }
    lemma_has_at_concat(s, 0, seq![0xA2u8], rl + var);
    lemma_has_at_concat(s, 1, rl, var);
    lemma_rl_round_trip(s, 1, (4 + topic.len()) as u32);
    let v = 1 + rl.len() as int;
    assert(spec_var_start(s) == v);
    lemma_has_at_concat(s, v, spec_u16_be(mid), spec_field_encode(topic));
    lemma_u16_round_trip(s, v, mid);
    lemma_field_round_trip(s, v + 2, topic);
}

/// An UNSUBSCRIBE packet carrying one topic filter.
#[derive(Clone, Debug)]
pub struct UnsubscribeMessage {
    pub msg_type: TypeKind,
    pub message_id: u16,
    pub topic: Vec<u8>,
    pub bytes: Vec<u8>,
}

impl UnsubscribeMessage {
    pub open spec fn wf(self) -> bool {
        &&& self.msg_type == TypeKind::UNSUBSCRIBE
        &&& self.topic@.len() <= 0xFFFF
        &&& spec_parse_unsubscribe(self.bytes@) == Some((self.message_id, self.topic@))
        &&& spec_parse_base(self.bytes@) == Ok::<BaseView, DecodeError>(
            BaseView {
                kind: TypeKind::UNSUBSCRIBE,
                dup: false,
                qos: MqttQos::Qos0,
                retain: false,
            },
        )
    }

    /// An UNSUBSCRIBE for the given filter, canonically encoded.
    pub fn new(message_id: u16, topic: Vec<u8>) -> (r: Self)
        requires
            topic@.len() <= 0xFFFF,
        ensures
            r.wf(),
            r.message_id == message_id,
            r.topic@ == topic@,
            r.bytes@ == spec_encode_unsubscribe(message_id, topic@),
    {
        let mut out: Vec<u8> = Vec::new();
        out.push(0xA2);
        write_rl(&mut out, (4 + topic.len()) as u32);
        write_u16(&mut out, message_id);
        write_field(&mut out, &topic);
        proof {
            assert(out@ =~= spec_encode_unsubscribe(message_id, topic@));
            lemma_unsubscribe_round_trip(message_id, topic@);
        }
        UnsubscribeMessage { msg_type: TypeKind::UNSUBSCRIBE, message_id, topic, bytes: out }
    }

    /// Decodes an UNSUBSCRIBE packet: the identifier and its first filter.
    pub fn decode(base: &BaseMessage) -> (r: Result<Self, DecodeError>)
        requires
            base.wf(),
            base.msg_type == TypeKind::UNSUBSCRIBE,
        ensures
            match r {
                Ok(m) => spec_parse_unsubscribe(base.bytes@) == Some((m.message_id, m.topic@))
                    && m.msg_type == TypeKind::UNSUBSCRIBE && m.bytes@ == base.bytes@ && m.wf(),
                Err(e) => e == DecodeError::MalformedPacket && spec_parse_unsubscribe(
                    base.bytes@,
                ) is None,
            },
    {
        let (n, l) = match read_rl(&base.bytes, 1) {
            Ok(p) => p,
            Err(_) => {
                proof {
                    assert(false);
                }
                return Err(DecodeError::MalformedPacket);
            },
        };
        if n < 2 {
            return Err(DecodeError::MalformedPacket);
        }
        let mid = read_u16(&base.bytes, 1 + l);
        let (topic, _c) = read_field(&base.bytes, 1 + l + 2)?;
        Ok(
            UnsubscribeMessage {
                msg_type: TypeKind::UNSUBSCRIBE,
                message_id: mid,
                topic,
                bytes: base.bytes.clone(),
            },
        )
    }
}

impl MqttMessage for UnsubscribeMessage {
    fn get_message_type(&self) -> TypeKind {
        self.msg_type
    }
}

impl MqttBytesMessage for UnsubscribeMessage {
    fn as_bytes(&self) -> &[u8] {
        self.bytes.as_slice()
    }
}

// ---------------------------------------------------------------------------
// SUBSCRIBE
// ---------------------------------------------------------------------------

/// The encoding of a SUBSCRIBE packet carrying one (filter, QoS) pair.
pub open spec fn spec_encode_subscribe(mid: u16, topic: Seq<u8>, qos: MqttQos) -> Seq<u8> {
    seq![0x82u8] + spec_rl_encode((5 + topic.len()) as u32) + spec_u16_be(mid)
        + spec_field_encode(topic) + seq![spec_qos_byte(qos)]
}

/// The (filter, requested-QoS byte) pairs of a SUBSCRIBE payload, parsed
/// from `i` to the end of the buffer. A requested QoS byte above 2 is
/// malformed.
pub open spec fn spec_parse_sub_pairs(s: Seq<u8>, i: int) -> Option<Seq<(Seq<u8>, u8)>>
    decreases s.len() - i,
{
    if i == s.len() {
        Some(Seq::empty())
    } else {
        match spec_parse_field(s, i) {
            None => None,
            Some((t, c)) => if i + c < s.len() && s[i + c] <= 2 {
                match spec_parse_sub_pairs(s, i + c + 1) {
                    None => None,
                    Some(rest) => Some(seq![(t, s[i + c])] + rest),
                }
            } else {
                None
            },
        }
    }
}

/// Every parsed pair took at least three bytes: a bound the SUBACK
/// encoder needs on the number of return codes.
pub proof fn lemma_sub_pairs_bound(s: Seq<u8>, i: int)
    requires
        0 <= i <= s.len(),
        spec_parse_sub_pairs(s, i) is Some,
    ensures
        3 * (spec_parse_sub_pairs(s, i)->0).len() <= s.len() - i,
    decreases s.len() - i,
{
    if i == s.len() {
    } else {
        match spec_parse_field(s, i) {
            None => {},
            Some((t, c)) => {
                if i + c < s.len() && s[i + c] <= 2 {
                    lemma_sub_pairs_bound(s, i + c + 1);
                }
            },
        }
    }
}

/// The identifier and pairs of a whole SUBSCRIBE packet.
pub open spec fn spec_parse_subscribe(s: Seq<u8>) -> Option<(u16, Seq<(Seq<u8>, u8)>)> {
    let v = spec_var_start(s);
    match spec_parse_u16(s, v) {
        None => None,
        Some(mid) => match spec_parse_sub_pairs(s, v + 2) {
            None => None,
            Some(pairs) => Some((mid, pairs)),
        },
    }
}

/// Parsing an encoded one-pair SUBSCRIBE packet recovers the identifier,
/// the filter and the requested QoS.
#[verifier::rlimit(100)]
#[verifier::spinoff_prover]
pub proof fn lemma_subscribe_round_trip(mid: u16, topic: Seq<u8>, qos: MqttQos)
    requires
        topic.len() <= 0xFFFF,
        5 + topic.len() <= MAX_REMAINING_LENGTH,
        qos == MqttQos::Qos0 || qos == MqttQos::Qos1 || qos == MqttQos::Qos2,
    ensures
        spec_parse_base(spec_encode_subscribe(mid, topic, qos)) == Ok::<BaseView, DecodeError>(
            BaseView { kind: TypeKind::SUBSCRIBE, dup: false, qos: MqttQos::Qos0, retain: false },
        ),
        spec_parse_subscribe(spec_encode_subscribe(mid, topic, qos)) == Some(
            (mid, seq![(topic, spec_qos_byte(qos))]),
        ),
{
    let s = spec_encode_subscribe(mid, topic, qos);
    let rl = spec_rl_encode((5 + topic.len()) as u32);
    let var = (spec_u16_be(mid) + spec_field_encode(topic)) + seq![spec_qos_byte(qos)];
    assert(seq_has_at(s, 0, seq![0x82u8] + (rl + var))) by {
        reveal(crate::codec::seq_has_at);
        assert(s.subrange(0, s.len() as int) =~= s);
        assert(s =~= seq![0x82u8] + (rl + var));
    }
    lemma_has_at_concat(s, 0, seq![0x82u8], rl + var);
    lemma_has_at_concat(s, 1, rl, var);
    lemma_rl_round_trip(s, 1, (5 + topic.len()) as u32);
    let v = 1 + rl.len() as int;
    assert(spec_var_start(s) == v);
    lemma_has_at_concat(s, v, spec_u16_be(mid) + spec_field_encode(topic), seq![spec_qos_byte(
        qos,
    )]);
    lemma_has_at_concat(s, v, spec_u16_be(mid), spec_field_encode(topic));
    lemma_u16_round_trip(s, v, mid);
    lemma_field_round_trip(s, v + 2, topic);
    let c = 2 + topic.len() as int;
    let qpos = v + 2 + c;
    lemma_has_at_index(s, qpos, seq![spec_qos_byte(qos)], 0);
    assert(s[qpos] == spec_qos_byte(qos));
    assert(qpos + 1 == s.len());
    assert(spec_parse_sub_pairs(s, qpos + 1) == Some(Seq::<(Seq<u8>, u8)>::empty()));
    assert(spec_parse_sub_pairs(s, v + 2) == Some(seq![(topic, spec_qos_byte(qos))])) by {
        assert(seq![(topic, spec_qos_byte(qos))] + Seq::<(Seq<u8>, u8)>::empty() =~= seq![
            (topic, spec_qos_byte(qos)),
        ]);
    }
}

/// A SUBSCRIBE packet carrying one (filter, requested QoS) pair; a packet
/// with several pairs decodes into one of these per pair.
#[derive(Clone, Debug)]
pub struct SubscribeMessage {
    pub msg_type: TypeKind,
    pub message_id: u16,
    pub topic: Vec<u8>,
    pub qos: MqttQos,
    pub bytes: Vec<u8>,
}

impl SubscribeMessage {
    pub open spec fn wf(self) -> bool {
        &&& self.msg_type == TypeKind::SUBSCRIBE
        &&& (self.qos == MqttQos::Qos0 || self.qos == MqttQos::Qos1 || self.qos == MqttQos::Qos2)
        &&& self.topic@.len() <= 0xFFFF
        &&& self.bytes@ == spec_encode_subscribe(self.message_id, self.topic@, self.qos)
    }

    /// A SUBSCRIBE for the given filter and requested QoS, canonically
    /// encoded.
    pub fn new(message_id: u16, topic: Vec<u8>, qos: MqttQos) -> (r: Self)
        requires
            topic@.len() <= 0xFFFF,
            qos == MqttQos::Qos0 || qos == MqttQos::Qos1 || qos == MqttQos::Qos2,
        ensures
            r.wf(),
            r.message_id == message_id,
            r.topic@ == topic@,
            r.qos == qos,
    {
        let mut out: Vec<u8> = Vec::new();
        out.push(0x82);
        write_rl(&mut out, (5 + topic.len()) as u32);
        write_u16(&mut out, message_id);
        write_field(&mut out, &topic);
        out.push(qos_byte(qos));
        assert(out@ =~= spec_encode_subscribe(message_id, topic@, qos));
        SubscribeMessage { msg_type: TypeKind::SUBSCRIBE, message_id, topic, qos, bytes: out }
    }
}

impl MqttMessage for SubscribeMessage {
    fn get_message_type(&self) -> TypeKind {
        self.msg_type
    }
}

impl MqttBytesMessage for SubscribeMessage {
    fn as_bytes(&self) -> &[u8] {
        self.bytes.as_slice()
    }
}

/// The views of the (filter, QoS byte) pairs a batch of decoded SUBSCRIBE
/// messages carries.
pub open spec fn spec_sub_views(v: Seq<SubscribeMessage>) -> Seq<(Seq<u8>, u8)> {
    v.map_values(|m: SubscribeMessage| (m.topic@, spec_qos_byte(m.qos)))
}

/// Decodes a whole SUBSCRIBE packet into one message per (filter, QoS)
/// pair, all sharing the packet identifier.
pub fn subscribe_batch(base: &BaseMessage) -> (r: Result<Vec<SubscribeMessage>, DecodeError>)
    requires
        base.wf(),
        base.msg_type == TypeKind::SUBSCRIBE,
    ensures
        match r {
            Ok(v) => {
                &&& spec_parse_subscribe(base.bytes@) matches Some((mid, pairs))
                &&& spec_sub_views(v@) == (spec_parse_subscribe(base.bytes@)->0).1
                &&& forall|i: int|
                    0 <= i < v@.len() ==> (#[trigger] v@[i]).message_id == (spec_parse_subscribe(
                        base.bytes@,
                    )->0).0 && v@[i].wf()
            },
            Err(e) => e == DecodeError::MalformedPacket && spec_parse_subscribe(base.bytes@)
                is None,
        },
{
    let ghost s = base.bytes@;
    let (n, l) = match read_rl(&base.bytes, 1) {
        Ok(p) => p,
        Err(_) => {
            proof {
                assert(false);
            }
            return Err(DecodeError::MalformedPacket);
        },
    };
    if n < 2 {
        return Err(DecodeError::MalformedPacket);
    }
    let mid = read_u16(&base.bytes, 1 + l);
    let ghost v2 = 1 + l + 2;
    let blen = base.bytes.len();
    let mut out: Vec<SubscribeMessage> = Vec::new();
    let mut pos: usize = 1 + l + 2;
    proof {
        assert(spec_sub_views(out@) =~= Seq::<(Seq<u8>, u8)>::empty());
        if spec_parse_sub_pairs(s, pos as int) is Some {
            assert(spec_sub_views(out@) + (spec_parse_sub_pairs(s, pos as int)->0)
                =~= spec_parse_sub_pairs(s, pos as int)->0);
        }
    }
    while pos < blen
        invariant
            base.wf(),
            base.msg_type == TypeKind::SUBSCRIBE,
            s == base.bytes@,
            blen == s.len(),
            v2 <= pos <= blen,
            spec_rl_parse(s, 1) == Some((n, l as int)),
            spec_var_start(s) == 1 + l,
            v2 == 1 + l + 2,
            spec_parse_u16(s, 1 + l as int) == Some(mid),
            spec_parse_sub_pairs(s, v2 as int) == match spec_parse_sub_pairs(s, pos as int) {
                None => None::<Seq<(Seq<u8>, u8)>>,
                Some(rest) => Some(spec_sub_views(out@) + rest),
            },
            forall|i: int|
                0 <= i < out@.len() ==> (#[trigger] out@[i]).message_id == mid && out@[i].wf(),
        decreases blen - pos,
    {
        let (topic, c) = match read_field(&base.bytes, pos) {
            Ok(p) => p,
            Err(e) => {
                proof {
                    assert(spec_parse_sub_pairs(s, pos as int) is None);
                    assert(spec_parse_subscribe(s) is None);
                }
                return Err(DecodeError::MalformedPacket);
            },
        };
        if pos + c >= blen {
            proof {
                assert(spec_parse_sub_pairs(s, pos as int) is None);
                assert(spec_parse_subscribe(s) is None);
            }
            return Err(DecodeError::MalformedPacket);
        }
        let qb = base.bytes[pos + c];
        if qb > 2 {
            proof {
                assert(spec_parse_sub_pairs(s, pos as int) is None);
                assert(spec_parse_subscribe(s) is None);
            }
            return Err(DecodeError::MalformedPacket);
        }
        let q = match qos_of_bits(qb) {
            Some(q) => q,
            None => {
                proof {
                    assert(false);
                }
                return Err(DecodeError::MalformedPacket);
            },
        };
        let ghost prev_out = out@;
        let m = SubscribeMessage::new(mid, topic, q);
        out.push(m);
        proof {
            let rest0 = spec_parse_sub_pairs(s, pos as int);
            let rest1 = spec_parse_sub_pairs(s, pos + c + 1);
            if rest1 is Some {
                assert(rest0 == Some(seq![(m.topic@, qb)] + (rest1->0)));
                assert(spec_sub_views(out@) =~= spec_sub_views(prev_out) + seq![(m.topic@, qb)]);
                assert(spec_sub_views(prev_out) + (seq![(m.topic@, qb)] + (rest1->0))
                    =~= spec_sub_views(out@) + (rest1->0));
            }
        }
        pos = pos + c + 1;
    }
    proof {
        assert(spec_parse_sub_pairs(s, pos as int) == Some(Seq::<(Seq<u8>, u8)>::empty()));
        assert(spec_sub_views(out@) + Seq::<(Seq<u8>, u8)>::empty() =~= spec_sub_views(out@));
    }
    Ok(out)
}


// ---------------------------------------------------------------------------
// The v3 packet sum type and the request dispatcher
// ---------------------------------------------------------------------------

/// Any decoded MQTT v3 control packet.
#[derive(Clone, Debug)]
pub enum MqttMessageV3 {
    Connect(crate::connect::ConnectMessage),
    Connack(ConnackMessage),
    Publish(PublishMessage),
    Puback(PubackMessage),
    Pubrec(PubrecMessage),
    Pubrel(PubrelMessage),
    Pubcomp(PubcompMessage),
    Subscribe(SubscribeMessage),
    Suback(SubackMessage),
    Unsubscribe(UnsubscribeMessage),
    Unsuback(UnsubackMessage),
    Pingreq(PingreqMessage),
    Pingresp(PingrespMessage),
    Disconnect(DisconnectMessage),
}

impl MqttMessageV3 {
    /// The wire bytes the carried message holds.
    pub open spec fn bytes_view(self) -> Seq<u8> {
        match self {
            MqttMessageV3::Connect(m) => m.bytes@,
            MqttMessageV3::Connack(m) => m.bytes@,
            MqttMessageV3::Publish(m) => m.bytes@,
            MqttMessageV3::Puback(m) => m.bytes@,
            MqttMessageV3::Pubrec(m) => m.bytes@,
            MqttMessageV3::Pubrel(m) => m.bytes@,
            MqttMessageV3::Pubcomp(m) => m.bytes@,
            MqttMessageV3::Subscribe(m) => m.bytes@,
            MqttMessageV3::Suback(m) => m.bytes@,
            MqttMessageV3::Unsubscribe(m) => m.bytes@,
            MqttMessageV3::Unsuback(m) => m.bytes@,
            MqttMessageV3::Pingreq(m) => m.bytes@,
            MqttMessageV3::Pingresp(m) => m.bytes@,
            MqttMessageV3::Disconnect(m) => m.bytes@,
        }
    }

    pub fn is_connect(&self) -> (r: bool)
        ensures r == (self matches MqttMessageV3::Connect(_)),
    {
        matches!(self, MqttMessageV3::Connect(_))
    }

    pub fn is_cannack(&self) -> (r: bool)
        ensures r == (self matches MqttMessageV3::Connack(_)),
    {
        matches!(self, MqttMessageV3::Connack(_))
    }

    pub fn is_publish(&self) -> (r: bool)
        ensures r == (self matches MqttMessageV3::Publish(_)),
    {
        matches!(self, MqttMessageV3::Publish(_))
    }

    pub fn is_puback(&self) -> (r: bool)
        ensures r == (self matches MqttMessageV3::Puback(_)),
    {
        matches!(self, MqttMessageV3::Puback(_))
    }

    pub fn is_pubrec(&self) -> (r: bool)
        ensures r == (self matches MqttMessageV3::Pubrec(_)),
    {
        matches!(self, MqttMessageV3::Pubrec(_))
    }

    pub fn is_pubrel(&self) -> (r: bool)
        ensures r == (self matches MqttMessageV3::Pubrel(_)),
    {
        matches!(self, MqttMessageV3::Pubrel(_))
    }

    pub fn is_pubcomp(&self) -> (r: bool)
        ensures r == (self matches MqttMessageV3::Pubcomp(_)),
    {
        matches!(self, MqttMessageV3::Pubcomp(_))
    }

    pub fn is_subscribe(&self) -> (r: bool)
        ensures r == (self matches MqttMessageV3::Subscribe(_)),
    {
        matches!(self, MqttMessageV3::Subscribe(_))
    }

    pub fn is_suback(&self) -> (r: bool)
        ensures r == (self matches MqttMessageV3::Suback(_)),
    {
        matches!(self, MqttMessageV3::Suback(_))
    }

    pub fn is_unsubscribe(&self) -> (r: bool)
        ensures r == (self matches MqttMessageV3::Unsubscribe(_)),
    {
        matches!(self, MqttMessageV3::Unsubscribe(_))
    }

    pub fn is_unsuback(&self) -> (r: bool)
        ensures r == (self matches MqttMessageV3::Unsuback(_)),
    {
        matches!(self, MqttMessageV3::Unsuback(_))
    }

    pub fn is_pingreq(&self) -> (r: bool)
        ensures r == (self matches MqttMessageV3::Pingreq(_)),
    {
        matches!(self, MqttMessageV3::Pingreq(_))
    }

    pub fn is_pingresp(&self) -> (r: bool)
        ensures r == (self matches MqttMessageV3::Pingresp(_)),
    {
        matches!(self, MqttMessageV3::Pingresp(_))
    }

    pub fn is_disconnect(&self) -> (r: bool)
        ensures r == (self matches MqttMessageV3::Disconnect(_)),
    {
        matches!(self, MqttMessageV3::Disconnect(_))
    }

    /// The wire bytes of the carried message.
    pub fn as_bytes(&self) -> (r: &[u8])
        ensures r@ == self.bytes_view(),
    {
        match self {
            MqttMessageV3::Connect(m) => m.bytes.as_slice(),
            MqttMessageV3::Connack(m) => m.bytes.as_slice(),
            MqttMessageV3::Publish(m) => m.bytes.as_slice(),
            MqttMessageV3::Puback(m) => m.bytes.as_slice(),
            MqttMessageV3::Pubrec(m) => m.bytes.as_slice(),
            MqttMessageV3::Pubrel(m) => m.bytes.as_slice(),
            MqttMessageV3::Pubcomp(m) => m.bytes.as_slice(),
            MqttMessageV3::Subscribe(m) => m.bytes.as_slice(),
            MqttMessageV3::Suback(m) => m.bytes.as_slice(),
            MqttMessageV3::Unsubscribe(m) => m.bytes.as_slice(),
            MqttMessageV3::Unsuback(m) => m.bytes.as_slice(),
            MqttMessageV3::Pingreq(m) => m.bytes.as_slice(),
            MqttMessageV3::Pingresp(m) => m.bytes.as_slice(),
            MqttMessageV3::Disconnect(m) => m.bytes.as_slice(),
        }
    }
}

/// One decoded SUBSCRIBE of a batch: a `Subscribe` with the batch's
/// identifier, carrying the given (filter, QoS byte) pair.
pub open spec fn spec_sub_item(item: MqttMessageV3, mid: u16, pair: (Seq<u8>, u8)) -> bool {
    &&& item matches MqttMessageV3::Subscribe(sm)
    &&& sm.message_id == mid
    &&& (sm.topic@, spec_qos_byte(sm.qos)) == pair
    &&& sm.wf()
}

/// What one inbound buffer became: a single v3 request, a batch of them
/// (SUBSCRIBE), a pre-encoded response or responses, a v5 request (not
/// decoded here), or an order to end the connection.
#[derive(Debug)]
pub enum MqttMessageKind {
    Response(Vec<u8>),
    Responses(Vec<Vec<u8>>),
    RequestV3(MqttMessageV3),
    RequestsV3(Vec<MqttMessageV3>),
    RequestV5,
    Exit(Vec<u8>),
}

impl MqttMessageKind {
    pub fn is_v3(&self) -> (r: bool)
        ensures r == (self matches MqttMessageKind::RequestV3(_)),
    {
        matches!(self, MqttMessageKind::RequestV3(_))
    }

    pub fn is_v3s(&self) -> (r: bool)
        ensures r == (self matches MqttMessageKind::RequestsV3(_)),
    {
        matches!(self, MqttMessageKind::RequestsV3(_))
    }

    pub fn get_v3(&self) -> (r: Option<&MqttMessageV3>)
        ensures
            match r {
                Some(m) => self matches MqttMessageKind::RequestV3(k) && m == k,
                None => !(self matches MqttMessageKind::RequestV3(_)),
            },
    {
        match self {
            MqttMessageKind::RequestV3(kind) => Some(kind),
            _ => None,
        }
    }

    pub fn get_v3s(&self) -> (r: Option<&Vec<MqttMessageV3>>)
        ensures
            match r {
                Some(m) => self matches MqttMessageKind::RequestsV3(k) && m == k,
                None => !(self matches MqttMessageKind::RequestsV3(_)),
            },
    {
        match self {
            MqttMessageKind::RequestsV3(kind) => Some(kind),
            _ => None,
        }
    }

    /// Decodes the body of a packet whose fixed header is in `base` into a
    /// v3 request. PINGREQ becomes the PINGRESP to send back and DISCONNECT
    /// the canonical DISCONNECT, as the handler expects them; SUBSCRIBE
    /// becomes one request per (filter, QoS) pair; a malformed body, or a
    /// kind the server never receives, becomes `None`.
    pub fn v3(base: BaseMessage) -> (r: Option<MqttMessageKind>)
        requires
            base.wf(),
        ensures
            match base.msg_type {
                TypeKind::CONNECT => match r {
                    Some(k) => k matches MqttMessageKind::RequestV3(MqttMessageV3::Connect(m))
                        && crate::connect::spec_parse_connect(base.bytes@) == Some(m.view_of())
                        && m.bytes@ == base.bytes@,
                    None => crate::connect::spec_parse_connect(base.bytes@) is None
                        || crate::protocol::spec_level_of_byte(
                        (crate::connect::spec_parse_connect(base.bytes@)->0).protocol_level,
                    ) is None,
                },
                TypeKind::CONNACK => match r {
                    Some(k) => k matches MqttMessageKind::RequestV3(MqttMessageV3::Connack(m))
                        && spec_parse_connack(base.bytes@) == Some(
                        (m.session_present, m.return_code),
                    ) && m.wf(),
                    None => spec_parse_connack(base.bytes@) is None,
                },
                TypeKind::PUBLISH => match r {
                    Some(k) => k matches MqttMessageKind::RequestV3(MqttMessageV3::Publish(m))
                        && spec_parse_publish(base.bytes@, base.qos) == Some(
                        (m.topic@, m.message_id, m.msg_body@),
                    ) && m.dup == base.dup && m.qos == base.qos && m.retain == base.retain
                        && m.bytes@ == base.bytes@,
                    None => spec_parse_publish(base.bytes@, base.qos) is None,
                },
                TypeKind::PUBACK => match r {
                    Some(k) => k matches MqttMessageKind::RequestV3(MqttMessageV3::Puback(m))
                        && spec_parse_mid(base.bytes@) == Some(m.message_id) && m.wf(),
                    None => spec_parse_mid(base.bytes@) is None,
                },
                TypeKind::PUBREC => match r {
                    Some(k) => k matches MqttMessageKind::RequestV3(MqttMessageV3::Pubrec(m))
                        && spec_parse_mid(base.bytes@) == Some(m.message_id) && m.wf(),
                    None => spec_parse_mid(base.bytes@) is None,
                },
                TypeKind::PUBREL => match r {
                    Some(k) => k matches MqttMessageKind::RequestV3(MqttMessageV3::Pubrel(m))
                        && spec_parse_mid(base.bytes@) == Some(m.message_id) && m.wf(),
                    None => spec_parse_mid(base.bytes@) is None,
                },
                TypeKind::PUBCOMP => match r {
                    Some(k) => k matches MqttMessageKind::RequestV3(MqttMessageV3::Pubcomp(m))
                        && spec_parse_mid(base.bytes@) == Some(m.message_id) && m.wf(),
                    None => spec_parse_mid(base.bytes@) is None,
                },
                TypeKind::SUBSCRIBE => match r {
                    Some(k) => k matches MqttMessageKind::RequestsV3(v)
                        && spec_parse_subscribe(base.bytes@) is Some && v@.len()
                        == (spec_parse_subscribe(base.bytes@)->0).1.len() && (forall|i: int|
                        0 <= i < v@.len() ==> spec_sub_item(
                            #[trigger] v@[i],
                            (spec_parse_subscribe(base.bytes@)->0).0,
                            (spec_parse_subscribe(base.bytes@)->0).1[i],
                        )),
                    None => spec_parse_subscribe(base.bytes@) is None,
                },
                TypeKind::UNSUBSCRIBE => match r {
                    Some(k) => k matches MqttMessageKind::RequestV3(
                        MqttMessageV3::Unsubscribe(m),
                    ) && spec_parse_unsubscribe(base.bytes@) == Some((m.message_id, m.topic@))
                        && m.bytes@ == base.bytes@ && m.wf(),
                    None => spec_parse_unsubscribe(base.bytes@) is None,
                },
                TypeKind::UNSUBACK => match r {
                    Some(k) => k matches MqttMessageKind::RequestV3(MqttMessageV3::Unsuback(m))
                        && spec_parse_mid(base.bytes@) == Some(m.message_id) && m.wf(),
                    None => spec_parse_mid(base.bytes@) is None,
                },
                TypeKind::PINGREQ => r matches Some(k) && k matches MqttMessageKind::RequestV3(
                    MqttMessageV3::Pingresp(m),
                ) && m.wf(),
                TypeKind::DISCONNECT => r matches Some(k) && k
                    matches MqttMessageKind::RequestV3(MqttMessageV3::Disconnect(m)) && m.wf(),
                _ => r is None,
            },
    {
        match base.msg_type {
            TypeKind::CONNECT => match crate::connect::ConnectMessage::decode(&base) {
                Ok(m) => Some(MqttMessageKind::RequestV3(MqttMessageV3::Connect(m))),
                Err(_) => None,
            },
            TypeKind::CONNACK => match ConnackMessage::decode(&base) {
                Ok(m) => Some(MqttMessageKind::RequestV3(MqttMessageV3::Connack(m))),
                Err(_) => None,
            },
            TypeKind::PUBLISH => match PublishMessage::decode(&base) {
                Ok(m) => Some(MqttMessageKind::RequestV3(MqttMessageV3::Publish(m))),
                Err(_) => None,
            },
            TypeKind::PUBACK => match PubackMessage::decode(&base) {
                Ok(m) => Some(MqttMessageKind::RequestV3(MqttMessageV3::Puback(m))),
                Err(_) => None,
            },
            TypeKind::PUBREC => match PubrecMessage::decode(&base) {
                Ok(m) => Some(MqttMessageKind::RequestV3(MqttMessageV3::Pubrec(m))),
                Err(_) => None,
            },
            TypeKind::PUBREL => match PubrelMessage::decode(&base) {
                Ok(m) => Some(MqttMessageKind::RequestV3(MqttMessageV3::Pubrel(m))),
                Err(_) => None,
            },
            TypeKind::PUBCOMP => match PubcompMessage::decode(&base) {
                Ok(m) => Some(MqttMessageKind::RequestV3(MqttMessageV3::Pubcomp(m))),
                Err(_) => None,
            },
            TypeKind::SUBSCRIBE => match subscribe_batch(&base) {
                Ok(subs) => {
                    let mut subs = subs;
                    let mut res: Vec<MqttMessageV3> = Vec::new();
                    let ghost orig = subs@;
                    while subs.len() > 0
                        invariant
                            res@.len() + subs@.len() == orig.len(),
                            subs@ == orig.skip(res@.len() as int),
                            forall|j: int|
                                0 <= j < res@.len() ==> (#[trigger] res@[j])
                                    == MqttMessageV3::Subscribe(orig[j]),
                        decreases subs@.len(),
                    {
                        let ghost k = res@.len() as int;
                        let m = subs.remove(0);
                        proof {
                            assert(orig.skip(k)[0] == orig[k]);
                            assert(orig.skip(k).remove(0) =~= orig.skip(k + 1));
                        }
                        res.push(MqttMessageV3::Subscribe(m));
                    }
                    Some(MqttMessageKind::RequestsV3(res))
                },
                Err(_) => None,
            },
            TypeKind::UNSUBSCRIBE => match UnsubscribeMessage::decode(&base) {
                Ok(m) => Some(MqttMessageKind::RequestV3(MqttMessageV3::Unsubscribe(m))),
                Err(_) => None,
            },
            TypeKind::UNSUBACK => match UnsubackMessage::decode(&base) {
                Ok(m) => Some(MqttMessageKind::RequestV3(MqttMessageV3::Unsuback(m))),
                Err(_) => None,
            },
            TypeKind::PINGREQ => Some(
                MqttMessageKind::RequestV3(MqttMessageV3::Pingresp(PingrespMessage::default())),
            ),
            TypeKind::DISCONNECT => Some(
                MqttMessageKind::RequestV3(MqttMessageV3::Disconnect(DisconnectMessage::default())),
            ),
            _ => None,
        }
    }
}

} // verus!
