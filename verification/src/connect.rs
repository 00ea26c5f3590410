//! The MQTT CONNECT packet: the protocol name and level, the connect
//! flags, the keep-alive, and the payload of client id and optional will,
//! user name and password fields, with spec-level encoder and parser and a
//! round-trip lemma.

use vstd::prelude::*;
use crate::protocol::{
    TypeKind, MqttQos, MqttProtocolLevel, DecodeError, spec_qos_byte, spec_level_byte,
    spec_level_of_byte, qos_byte, qos_of_bits, level_byte, level_of_byte,
};
use crate::codec::{
    spec_u16_be, spec_parse_u16, spec_rl_encode, spec_rl_parse, spec_field_encode,
    spec_parse_field, seq_has_at, lemma_has_at_concat, lemma_has_at_index, lemma_has_at_nine, lemma_packet_frame,
    lemma_concat_eleven, lemma_u16_round_trip, lemma_rl_round_trip, lemma_field_round_trip,
    read_u16, write_u16, write_rl, read_rl, write_field, read_field, write_byte,
    MAX_REMAINING_LENGTH,
};
use crate::message::{
    BaseView, BaseMessage, MqttMessage, MqttBytesMessage, spec_parse_base, spec_var_start,
};

verus! {

// ---------------------------------------------------------------------------
// CONNECT
// ---------------------------------------------------------------------------

/// Everything a CONNECT packet carries, at the spec level: the protocol
/// name and level byte, the connect flags unpacked, the keep-alive, and the
/// payload fields in order.
pub struct ConnectView {
    pub protocol_name: Seq<u8>,
    pub protocol_level: u8,
    pub clean_session: bool,
    pub will_flag: bool,
    pub will_qos: u8,
    pub will_retain: bool,
    pub keep_alive: u16,
    pub client_id: Seq<u8>,
    pub will_topic: Option<Seq<u8>>,
    pub will_message: Option<Seq<u8>>,
    pub user_name: Option<Seq<u8>>,
    pub password: Option<Seq<u8>>,
}

/// The connect flags byte: bit 7 username, bit 6 password, bit 5 will
/// retain, bits 4-3 will QoS, bit 2 will flag, bit 1 clean session, bit 0
/// reserved zero.
pub open spec fn spec_connect_flags(cv: ConnectView) -> u8 {
    ((if cv.user_name is Some { 128int } else { 0int }) + (if cv.password is Some {
        64int
    } else {
        0int
    }) + (if cv.will_retain { 32int } else { 0int }) + cv.will_qos * 8 + (if cv.will_flag {
        4int
    } else {
        0int
    }) + (if cv.clean_session { 2int } else { 0int })) as u8
}

/// An optional length-prefixed field: absent fields take no bytes.
pub open spec fn spec_opt_field(o: Option<Seq<u8>>) -> Seq<u8> {
    match o {
        Some(d) => spec_field_encode(d),
        None => Seq::empty(),
    }
}

/// Bytes an optional field takes on the wire.
pub open spec fn spec_opt_len(o: Option<Seq<u8>>) -> int {
    match o {
        Some(d) => 2 + d.len() as int,
        None => 0,
    }
}

/// The variable header and payload of a CONNECT packet.
pub open spec fn spec_connect_var(cv: ConnectView) -> Seq<u8> {
    spec_field_encode(cv.protocol_name) + seq![cv.protocol_level] + seq![spec_connect_flags(cv)]
        + spec_u16_be(cv.keep_alive) + spec_field_encode(cv.client_id) + spec_opt_field(
        cv.will_topic,
    ) + spec_opt_field(cv.will_message) + spec_opt_field(cv.user_name) + spec_opt_field(
        cv.password,
    )
}

/// The whole encoding of a CONNECT packet.
pub open spec fn spec_encode_connect(cv: ConnectView) -> Seq<u8> {
    seq![0x10u8] + spec_rl_encode(spec_connect_var(cv).len() as u32) + spec_connect_var(cv)
}

/// The flag bits agree with which optional fields are present, and the
/// will QoS and retain are zero without a will.
pub open spec fn spec_connect_consistent(cv: ConnectView) -> bool {
    &&& cv.will_flag == (cv.will_topic is Some)
    &&& cv.will_flag == (cv.will_message is Some)
    &&& (!cv.will_flag ==> cv.will_qos == 0 && !cv.will_retain)
    &&& cv.will_qos <= 2
}

/// Field lengths small enough to encode.
pub open spec fn spec_connect_sizes(cv: ConnectView) -> bool {
    &&& cv.protocol_name.len() <= 0xFFFF
    &&& cv.client_id.len() <= 0xFFFF
    &&& (cv.will_topic matches Some(d) ==> d.len() <= 0xFFFF)
    &&& (cv.will_message matches Some(d) ==> d.len() <= 0xFFFF)
    &&& (cv.user_name matches Some(d) ==> d.len() <= 0xFFFF)
    &&& (cv.password matches Some(d) ==> d.len() <= 0xFFFF)
    &&& spec_connect_var(cv).len() <= MAX_REMAINING_LENGTH
}

/// Parses one optional field: consumes nothing when `present` is false;
/// returns the field and the next position.
pub open spec fn spec_parse_opt(s: Seq<u8>, i: int, present: bool) -> Option<
    (Option<Seq<u8>>, int),
> {
    if !present {
        Some((None, i))
    } else {
        match spec_parse_field(s, i) {
            None => None,
            Some((d, c)) => Some((Some(d), i + c)),
        }
    }
}

/// Parses a whole CONNECT packet after the fixed header: protocol name,
/// level, flags (reserved bit zero, will QoS at most 2 and zero without a
/// will), keep-alive, client id, then the optional fields the flags
/// announce, ending exactly at the end of the packet.
pub open spec fn spec_parse_connect(s: Seq<u8>) -> Option<ConnectView> {
    let v = spec_var_start(s);
    match spec_parse_field(s, v) {
        None => None,
        Some((name, c1)) => {
            let p = v + c1;
            if p + 4 > s.len() {
                None
            } else {
                let level = s[p];
                let flags = s[p + 1];
                let keep_alive = (s[p + 2] * 256 + s[p + 3]) as u16;
                let will_flag = (flags / 4) % 2 == 1;
                let will_qos = (flags / 8) % 4;
                let will_retain = (flags / 32) % 2 == 1;
                let has_user = flags / 128 == 1;
                let has_pass = (flags / 64) % 2 == 1;
                let clean_session = (flags / 2) % 2 == 1;
                if flags % 2 != 0 || will_qos > 2 || (!will_flag && (will_qos != 0
                    || will_retain)) {
                    None
                } else {
                    match spec_parse_field(s, p + 4) {
                        None => None,
                        Some((cid, c2)) => match spec_parse_opt(s, p + 4 + c2, will_flag) {
                            None => None,
                            Some((wt, q1)) => match spec_parse_opt(s, q1, will_flag) {
                                None => None,
                                Some((wm, q2)) => match spec_parse_opt(s, q2, has_user) {
                                    None => None,
                                    Some((un, q3)) => match spec_parse_opt(s, q3, has_pass) {
                                        None => None,
                                        Some((pw, q4)) => if q4 == s.len() {
                                            Some(
                                                ConnectView {
                                                    protocol_name: name,
                                                    protocol_level: level,
                                                    clean_session,
                                                    will_flag,
                                                    will_qos: will_qos as u8,
                                                    will_retain,
                                                    keep_alive,
                                                    client_id: cid,
                                                    will_topic: wt,
                                                    will_message: wm,
                                                    user_name: un,
                                                    password: pw,
                                                },
                                            )
                                        } else {
                                            None
                                        },
                                    },
                                },
                            },
                        },
                    }
                }
            }
        },
    }
}

/// An occurrence of an encoded optional field parses back to the field.
pub proof fn lemma_opt_field_round_trip(s: Seq<u8>, i: int, o: Option<Seq<u8>>)
    requires
        seq_has_at(s, i, spec_opt_field(o)),
        o matches Some(d) ==> d.len() <= 0xFFFF,
    ensures
        spec_parse_opt(s, i, o is Some) == Some((o, i + spec_opt_len(o))),
{
    if o is Some {
        lemma_field_round_trip(s, i, o->0);
    }
}

/// How the connect flag bits come back out of the flags byte.
pub proof fn lemma_connect_flag_bits(flags: int, a: int, b: int, c: int, q: int, d: int, e: int)
    by (nonlinear_arith)
    requires
        flags == 128 * a + 64 * b + 32 * c + 8 * q + 4 * d + 2 * e,
        0 <= a <= 1,
        0 <= b <= 1,
        0 <= c <= 1,
        0 <= q <= 2,
        0 <= d <= 1,
        0 <= e <= 1,
    ensures
        flags % 2 == 0,
        (flags / 2) % 2 == e,
        (flags / 4) % 2 == d,
        (flags / 8) % 4 == q,
        (flags / 32) % 2 == c,
        (flags / 64) % 2 == b,
        flags / 128 == a,
{
}

/// Where the head of an encoded CONNECT packet lies and what it parses
/// to: the fixed header, the protocol name field, the level, flags and
/// keep-alive bytes.
#[verifier::rlimit(100)]
#[verifier::spinoff_prover]
pub proof fn lemma_connect_head(cv: ConnectView)
    requires
        spec_connect_consistent(cv),
        spec_connect_sizes(cv),
    ensures
        spec_parse_base(spec_encode_connect(cv)) == Ok::<BaseView, DecodeError>(
            BaseView { kind: TypeKind::CONNECT, dup: false, qos: MqttQos::Qos0, retain: false },
        ),
        spec_var_start(spec_encode_connect(cv)) == 1 + spec_rl_encode(
            spec_connect_var(cv).len() as u32,
        ).len(),
        ({
            let s = spec_encode_connect(cv);
            let v = spec_var_start(s);
            let p = v + 2 + cv.protocol_name.len() as int;
            &&& spec_parse_field(s, v) == Some(
                (cv.protocol_name, 2 + cv.protocol_name.len() as int),
            )
            &&& p + 4 <= s.len()
            &&& s[p] == cv.protocol_level
            &&& s[p + 1] == spec_connect_flags(cv)
            &&& s[p + 2] * 256 + s[p + 3] == cv.keep_alive
        }),
{
    let s = spec_encode_connect(cv);
    let var = spec_connect_var(cv);
    let rl = spec_rl_encode(var.len() as u32);
    lemma_packet_frame(s, 0x10u8, rl, var);
    lemma_rl_round_trip(s, 1, var.len() as u32);
    let v = 1 + rl.len() as int;
    assert(spec_var_start(s) == v);
    let f1 = spec_field_encode(cv.protocol_name);
    let f2 = seq![cv.protocol_level];
    let f3 = seq![spec_connect_flags(cv)];
    let f4 = spec_u16_be(cv.keep_alive);
    let f5 = spec_field_encode(cv.client_id);
    let f6 = spec_opt_field(cv.will_topic);
    let f7 = spec_opt_field(cv.will_message);
    let f8 = spec_opt_field(cv.user_name);
    let f9 = spec_opt_field(cv.password);
    assert(var == f1 + f2 + f3 + f4 + f5 + f6 + f7 + f8 + f9);
    lemma_has_at_nine(s, v, f1, f2, f3, f4, f5, f6, f7, f8, f9);
    let p = v + f1.len() as int;
    lemma_field_round_trip(s, v, cv.protocol_name);
    lemma_has_at_index(s, p, f2, 0);
    lemma_has_at_index(s, p + 1, f3, 0);
    assert((cv.keep_alive / 256) * 256 + cv.keep_alive % 256 == cv.keep_alive)
        by (nonlinear_arith)
        requires cv.keep_alive >= 0;
    assert(s[p + 2] == cv.keep_alive / 256 && s[p + 3] == cv.keep_alive % 256) by {
        lemma_has_at_index(s, p + 2, f4, 0);
        lemma_has_at_index(s, p + 2, f4, 1);
    }
}

/// Where the client id and will fields of an encoded CONNECT packet lie
/// and what they parse to.
#[verifier::rlimit(100)]
#[verifier::spinoff_prover]
pub proof fn lemma_connect_payload(cv: ConnectView)
    requires
        spec_connect_consistent(cv),
        spec_connect_sizes(cv),
    ensures
        ({
            let s = spec_encode_connect(cv);
            let v = spec_var_start(s);
            let p = v + 2 + cv.protocol_name.len() as int;
            let c2 = 2 + cv.client_id.len() as int;
            let q1 = p + 4 + c2 + spec_opt_len(cv.will_topic);
            let q2 = q1 + spec_opt_len(cv.will_message);
            &&& spec_parse_field(s, p + 4) == Some((cv.client_id, c2))
            &&& spec_parse_opt(s, p + 4 + c2, cv.will_flag) == Some((cv.will_topic, q1))
            &&& spec_parse_opt(s, q1, cv.will_flag) == Some((cv.will_message, q2))
        }),
{
    let s = spec_encode_connect(cv);
    let var = spec_connect_var(cv);
    let rl = spec_rl_encode(var.len() as u32);
    lemma_packet_frame(s, 0x10u8, rl, var);
    lemma_rl_round_trip(s, 1, var.len() as u32);
    let v = 1 + rl.len() as int;
    assert(spec_var_start(s) == v);
    let f1 = spec_field_encode(cv.protocol_name);
    let f2 = seq![cv.protocol_level];
    let f3 = seq![spec_connect_flags(cv)];
    let f4 = spec_u16_be(cv.keep_alive);
    let f5 = spec_field_encode(cv.client_id);
    let f6 = spec_opt_field(cv.will_topic);
    let f7 = spec_opt_field(cv.will_message);
    let f8 = spec_opt_field(cv.user_name);
    let f9 = spec_opt_field(cv.password);
    assert(var == f1 + f2 + f3 + f4 + f5 + f6 + f7 + f8 + f9);
    lemma_has_at_nine(s, v, f1, f2, f3, f4, f5, f6, f7, f8, f9);
    let p = v + f1.len() as int;
    lemma_field_round_trip(s, p + 4, cv.client_id);
    let c2 = 2 + cv.client_id.len() as int;
    lemma_opt_field_round_trip(s, p + 4 + c2, cv.will_topic);
    let q1 = p + 4 + c2 + spec_opt_len(cv.will_topic);
    lemma_opt_field_round_trip(s, q1, cv.will_message);
    assert(cv.will_flag == (cv.will_topic is Some));
}

/// Where the user name and password fields of an encoded CONNECT packet
/// lie, and that they end exactly at the end of the packet.
#[verifier::rlimit(100)]
#[verifier::spinoff_prover]
pub proof fn lemma_connect_auth(cv: ConnectView)
    requires
        spec_connect_consistent(cv),
        spec_connect_sizes(cv),
    ensures
        ({
            let s = spec_encode_connect(cv);
            let v = spec_var_start(s);
            let p = v + 2 + cv.protocol_name.len() as int;
            let c2 = 2 + cv.client_id.len() as int;
            let q1 = p + 4 + c2 + spec_opt_len(cv.will_topic);
            let q2 = q1 + spec_opt_len(cv.will_message);
            let q3 = q2 + spec_opt_len(cv.user_name);
            let q4 = q3 + spec_opt_len(cv.password);
            &&& spec_parse_opt(s, q2, cv.user_name is Some) == Some((cv.user_name, q3))
            &&& spec_parse_opt(s, q3, cv.password is Some) == Some((cv.password, q4))
            &&& q4 == s.len()
        }),
{
    let s = spec_encode_connect(cv);
    let var = spec_connect_var(cv);
    let rl = spec_rl_encode(var.len() as u32);
    lemma_packet_frame(s, 0x10u8, rl, var);
    lemma_rl_round_trip(s, 1, var.len() as u32);
    let v = 1 + rl.len() as int;
    assert(spec_var_start(s) == v);
    let f1 = spec_field_encode(cv.protocol_name);
    let f2 = seq![cv.protocol_level];
    let f3 = seq![spec_connect_flags(cv)];
    let f4 = spec_u16_be(cv.keep_alive);
    let f5 = spec_field_encode(cv.client_id);
    let f6 = spec_opt_field(cv.will_topic);
    let f7 = spec_opt_field(cv.will_message);
    let f8 = spec_opt_field(cv.user_name);
    let f9 = spec_opt_field(cv.password);
    assert(var == f1 + f2 + f3 + f4 + f5 + f6 + f7 + f8 + f9);
    lemma_has_at_nine(s, v, f1, f2, f3, f4, f5, f6, f7, f8, f9);
    let p = v + f1.len() as int;
    let c2 = 2 + cv.client_id.len() as int;
    let q1 = p + 4 + c2 + spec_opt_len(cv.will_topic);
    let q2 = q1 + spec_opt_len(cv.will_message);
    lemma_opt_field_round_trip(s, q2, cv.user_name);
    let q3 = q2 + spec_opt_len(cv.user_name);
    lemma_opt_field_round_trip(s, q3, cv.password);
    let q4 = q3 + spec_opt_len(cv.password);
    assert(q4 == s.len());
}

/// Parsing an encoded CONNECT packet recovers every field.
#[verifier::rlimit(100)]
#[verifier::spinoff_prover]
pub proof fn lemma_connect_round_trip(cv: ConnectView)
    requires
        spec_connect_consistent(cv),
        spec_connect_sizes(cv),
    ensures
        spec_parse_base(spec_encode_connect(cv)) == Ok::<BaseView, DecodeError>(
            BaseView { kind: TypeKind::CONNECT, dup: false, qos: MqttQos::Qos0, retain: false },
        ),
        spec_parse_connect(spec_encode_connect(cv)) == Some(cv),
{
    lemma_connect_head(cv);
    lemma_connect_payload(cv);
    lemma_connect_auth(cv);
    let s = spec_encode_connect(cv);
    let flags = spec_connect_flags(cv);
    let a: int = if cv.user_name is Some { 1 } else { 0 };
    let b: int = if cv.password is Some { 1 } else { 0 };
    let c: int = if cv.will_retain { 1 } else { 0 };
    let q: int = cv.will_qos as int;
    let d: int = if cv.will_flag { 1 } else { 0 };
    let e: int = if cv.clean_session { 1 } else { 0 };
    assert(flags == 128 * a + 64 * b + 32 * c + 8 * q + 4 * d + 2 * e);
    lemma_connect_flag_bits(flags as int, a, b, c, q, d, e);
    assert(spec_parse_connect(s) == Some(cv));
}

/// Bytes an optional field will take on the wire.
pub fn opt_field_len(o: &Option<Vec<u8>>) -> (r: usize)
    requires
        (o matches Some(d) ==> d@.len() <= 0xFFFF),
    ensures
        r == spec_opt_len(spec_opt_view(*o)),
{
    match o {
        Some(d) => 2 + d.len(),
        None => 0,
    }
}

/// Appends an optional length-prefixed field to `out`.
pub fn write_opt_field(out: &mut Vec<u8>, o: &Option<Vec<u8>>)
    requires
        (o matches Some(d) ==> d@.len() <= 0xFFFF),
    ensures
        final(out)@ == old(out)@ + spec_opt_field(spec_opt_view(*o)),
{
    match o {
        Some(d) => write_field(out, d),
        None => {
            assert(final(out)@ =~= old(out)@ + spec_opt_field(spec_opt_view(*o)));
        },
    }
}

/// The payload of a CONNECT packet: the client id and the optional will,
/// user name and password fields.
#[derive(Clone, Debug)]
pub struct ConnectMessagePayload {
    pub client_id: Vec<u8>,
    pub will_topic: Option<Vec<u8>>,
    pub will_message: Option<Vec<u8>>,
    pub user_name: Option<Vec<u8>>,
    pub password: Option<Vec<u8>>,
}

/// View of an optional byte-string field.
pub open spec fn spec_opt_view(o: Option<Vec<u8>>) -> Option<Seq<u8>> {
    match o {
        Some(d) => Some(d@),
        None => None,
    }
}

/// A CONNECT packet.
#[derive(Clone, Debug)]
pub struct ConnectMessage {
    pub msg_type: TypeKind,
    pub protocol_name: Vec<u8>,
    pub protocol_level: MqttProtocolLevel,
    pub clean_session: bool,
    pub will_flag: bool,
    pub will_qos: MqttQos,
    pub will_retain: bool,
    pub keep_alive: u16,
    pub payload: ConnectMessagePayload,
    pub bytes: Vec<u8>,
}

impl ConnectMessage {
    /// The spec-level view of this message.
    pub open spec fn view_of(self) -> ConnectView {
        ConnectView {
            protocol_name: self.protocol_name@,
            protocol_level: spec_level_byte(self.protocol_level),
            clean_session: self.clean_session,
            will_flag: self.will_flag,
            will_qos: spec_qos_byte(self.will_qos),
            will_retain: self.will_retain,
            keep_alive: self.keep_alive,
            client_id: self.payload.client_id@,
            will_topic: spec_opt_view(self.payload.will_topic),
            will_message: spec_opt_view(self.payload.will_message),
            user_name: spec_opt_view(self.payload.user_name),
            password: spec_opt_view(self.payload.password),
        }
    }

    pub open spec fn wf(self) -> bool {
        &&& self.msg_type == TypeKind::CONNECT
        &&& self.will_qos != MqttQos::Failure
        &&& spec_parse_connect(self.bytes@) == Some(self.view_of())
        &&& spec_parse_base(self.bytes@) == Ok::<BaseView, DecodeError>(
            BaseView { kind: TypeKind::CONNECT, dup: false, qos: MqttQos::Qos0, retain: false },
        )
    }

    /// A CONNECT with the given settings and payload, canonically encoded.
    #[verifier::rlimit(100)]
    #[verifier::spinoff_prover]
    pub fn new(
        protocol_name: Vec<u8>,
        protocol_level: MqttProtocolLevel,
        clean_session: bool,
        will_flag: bool,
        will_qos: MqttQos,
        will_retain: bool,
        keep_alive: u16,
        payload: ConnectMessagePayload,
    ) -> (r: Self)
        requires
            will_qos != MqttQos::Failure,
            will_flag == (payload.will_topic is Some),
            will_flag == (payload.will_message is Some),
            !will_flag ==> will_qos == MqttQos::Qos0 && !will_retain,
            protocol_name@.len() <= 0xFFFF,
            payload.client_id@.len() <= 0xFFFF,
            (payload.will_topic matches Some(d) ==> d@.len() <= 0xFFFF),
            (payload.will_message matches Some(d) ==> d@.len() <= 0xFFFF),
            (payload.user_name matches Some(d) ==> d@.len() <= 0xFFFF),
            (payload.password matches Some(d) ==> d@.len() <= 0xFFFF),
            16 + protocol_name@.len() + payload.client_id@.len() + spec_opt_len(
                spec_opt_view(payload.will_topic),
            ) + spec_opt_len(spec_opt_view(payload.will_message)) + spec_opt_len(
                spec_opt_view(payload.user_name),
            ) + spec_opt_len(spec_opt_view(payload.password)) <= MAX_REMAINING_LENGTH,
        ensures
            r.wf(),
            r.protocol_name@ == protocol_name@,
            r.protocol_level == protocol_level,
            r.clean_session == clean_session,
            r.will_flag == will_flag,
            r.will_qos == will_qos,
            r.will_retain == will_retain,
            r.keep_alive == keep_alive,
            r.payload == payload,
            r.bytes@ == spec_encode_connect(r.view_of()),
    {
        let r = ConnectMessage {
            msg_type: TypeKind::CONNECT,
            protocol_name,
            protocol_level,
            clean_session,
            will_flag,
            will_qos,
            will_retain,
            keep_alive,
            payload,
            bytes: Vec::new(),
        };
        let ghost cv = r.view_of();
        let flags: u8 = (if r.payload.user_name.is_some() { 128u8 } else { 0u8 }) + (
        if r.payload.password.is_some() { 64u8 } else { 0u8 }) + (if r.will_retain {
            32u8
        } else {
            0u8
        }) + qos_byte(r.will_qos) * 8 + (if r.will_flag { 4u8 } else { 0u8 }) + (
        if r.clean_session { 2u8 } else { 0u8 });
        assert(flags == spec_connect_flags(cv));
        let varlen: usize = 2 + r.protocol_name.len() + 4 + 2 + r.payload.client_id.len()
            + opt_field_len(&r.payload.will_topic) + opt_field_len(&r.payload.will_message)
            + opt_field_len(&r.payload.user_name) + opt_field_len(&r.payload.password);
        let mut out: Vec<u8> = Vec::new();
        write_byte(&mut out, 0x10);
        write_rl(&mut out, varlen as u32);
        write_field(&mut out, &r.protocol_name);
        write_byte(&mut out, level_byte(r.protocol_level));
        write_byte(&mut out, flags);
        write_u16(&mut out, r.keep_alive);
        write_field(&mut out, &r.payload.client_id);
        write_opt_field(&mut out, &r.payload.will_topic);
        write_opt_field(&mut out, &r.payload.will_message);
        write_opt_field(&mut out, &r.payload.user_name);
        write_opt_field(&mut out, &r.payload.password);
        proof {
            let f1 = spec_field_encode(cv.protocol_name);
            let f2 = seq![cv.protocol_level];
            let f3 = seq![spec_connect_flags(cv)];
            let f4 = spec_u16_be(cv.keep_alive);
            let f5 = spec_field_encode(cv.client_id);
            let f6 = spec_opt_field(cv.will_topic);
            let f7 = spec_opt_field(cv.will_message);
            let f8 = spec_opt_field(cv.user_name);
            let f9 = spec_opt_field(cv.password);
            assert(spec_connect_var(cv) == f1 + f2 + f3 + f4 + f5 + f6 + f7 + f8 + f9);
            assert(varlen == spec_connect_var(cv).len());
            let rl = spec_rl_encode(varlen as u32);
            assert(out@ == Seq::<u8>::empty() + seq![0x10u8] + rl + f1 + f2 + f3 + f4 + f5 + f6
                + f7 + f8 + f9);
            lemma_concat_eleven(seq![0x10u8], rl, f1, f2, f3, f4, f5, f6, f7, f8, f9);
            assert(out@ == spec_encode_connect(cv));
            lemma_connect_round_trip(cv);
        }
        let r = ConnectMessage { bytes: out, ..r };
        assert(r.view_of() == cv);
        r
    }
}

/// Reads one optional length-prefixed field; consumes nothing when
/// `present` is false.
pub fn read_opt_field(bytes: &Vec<u8>, pos: usize, present: bool) -> (r: Result<
    (Option<Vec<u8>>, usize),
    DecodeError,
>)
    requires
        pos <= bytes@.len(),
    ensures
        match r {
            Ok((o, np)) => spec_parse_opt(bytes@, pos as int, present) == Some(
                (spec_opt_view(o), np as int),
            ) && pos <= np <= bytes@.len(),
            Err(e) => e == DecodeError::MalformedPacket && spec_parse_opt(
                bytes@,
                pos as int,
                present,
            ) is None,
        },
{
    if !present {
        return Ok((None, pos));
    }
    let _ = bytes.len();
    let (d, c) = read_field(bytes, pos)?;
    Ok((Some(d), pos + c))
}

impl ConnectMessage {
    /// Decodes a CONNECT packet. Fails with `MalformedPacket` when the
    /// packet is truncated or a reserved bit or the will flags are wrong,
    /// and with `UnacceptableLevel` when the packet parses whole but its
    /// protocol level byte is not a v3 level.
    #[verifier::rlimit(100)]
    #[verifier::spinoff_prover]
    pub fn decode(base: &BaseMessage) -> (r: Result<Self, DecodeError>)
        requires
            base.wf(),
            base.msg_type == TypeKind::CONNECT,
        ensures
            match r {
                Ok(m) => {
                    &&& spec_parse_connect(base.bytes@) == Some(m.view_of())
                    &&& m.msg_type == TypeKind::CONNECT
                    &&& m.will_qos != MqttQos::Failure
                    &&& m.bytes@ == base.bytes@
                },
                Err(e) => match spec_parse_connect(base.bytes@) {
                    None => e == DecodeError::MalformedPacket,
                    Some(cv) => e == DecodeError::UnacceptableLevel && spec_level_of_byte(
                        cv.protocol_level,
                    ) is None,
                },
            },
    {
        let ghost s = base.bytes@;
        let (n, l) = match read_rl(&base.bytes, 1) {
            Ok(p) => p,
            Err(_) => {
                proof {
                    assert(false);
                }
                return Err(DecodeError::MalformedPacket);
            },
        };
        let v = 1 + l;
        let blen = base.bytes.len();
        let (name, c1) = read_field(&base.bytes, v)?;
        let p = v + c1;
        if blen - p < 4 {
            return Err(DecodeError::MalformedPacket);
        }
        let level = base.bytes[p];
        let flags = base.bytes[p + 1];
        let keep_alive = read_u16(&base.bytes, p + 2);
        let will_flag = (flags / 4) % 2 == 1;
        let will_qos_bits = (flags / 8) % 4;
        let will_retain = (flags / 32) % 2 == 1;
        let has_user = flags / 128 == 1;
        let has_pass = (flags / 64) % 2 == 1;
        let clean_session = (flags / 2) % 2 == 1;
        if flags % 2 != 0 || will_qos_bits > 2 || (!will_flag && (will_qos_bits != 0
            || will_retain)) {
            return Err(DecodeError::MalformedPacket);
        }
        let (cid, c2) = read_field(&base.bytes, p + 4)?;
        let (wt, q1) = read_opt_field(&base.bytes, p + 4 + c2, will_flag)?;
        let (wm, q2) = read_opt_field(&base.bytes, q1, will_flag)?;
        let (un, q3) = read_opt_field(&base.bytes, q2, has_user)?;
        let (pw, q4) = read_opt_field(&base.bytes, q3, has_pass)?;
        if q4 != blen {
            return Err(DecodeError::MalformedPacket);
        }
        let ghost cv = spec_parse_connect(s)->0;
        proof {
            assert(spec_parse_connect(s) is Some);
        }
        let plevel = match level_of_byte(level) {
            Some(pl) => pl,
            None => {
                return Err(DecodeError::UnacceptableLevel);
            },
        };
        let wq = match qos_of_bits(will_qos_bits) {
            Some(q) => q,
            None => {
                proof {
                    assert(false);
                }
                return Err(DecodeError::MalformedPacket);
            },
        };
        let m = ConnectMessage {
            msg_type: TypeKind::CONNECT,
            protocol_name: name,
            protocol_level: plevel,
            clean_session,
            will_flag,
            will_qos: wq,
            will_retain,
            keep_alive,
            payload: ConnectMessagePayload {
                client_id: cid,
                will_topic: wt,
                will_message: wm,
                user_name: un,
                password: pw,
            },
            bytes: base.bytes.clone(),
        };
        proof {
            assert(m.view_of() == cv);
        }
        Ok(m)
    }
}

/// The protocol name and level read early from a CONNECT packet, before
/// the full decode: what the dispatch needs to pick a protocol version or
/// reject one.
#[derive(Clone, Debug)]
pub struct BaseConnect {
    pub msg_type: TypeKind,
    pub protocol_name: Vec<u8>,
    pub protocol_level: u8,
}

impl BaseConnect {
    /// The name and level bytes at the head of a CONNECT packet's variable
    /// header.
    pub fn decode(base: &BaseMessage) -> (r: Result<Self, DecodeError>)
        requires
            base.wf(),
            base.msg_type == TypeKind::CONNECT,
        ensures
            match r {
                Ok(b) => {
                    &&& b.msg_type == TypeKind::CONNECT
                    &&& spec_parse_field(base.bytes@, spec_var_start(base.bytes@)) matches Some(
                        (name, c),
                    ) && spec_var_start(base.bytes@) + c < base.bytes@.len() && b@.0 == name
                        && b@.1 == base.bytes@[spec_var_start(base.bytes@) + c]
                },
                Err(e) => {
                    &&& e == DecodeError::MalformedPacket
                    &&& match spec_parse_field(base.bytes@, spec_var_start(base.bytes@)) {
                        None => true,
                        Some((name, c)) => spec_var_start(base.bytes@) + c >= base.bytes@.len(),
                    }
                },
            },
    {
        let (n, l) = match read_rl(&base.bytes, 1) {
            Ok(p) => p,
            Err(_) => {
                proof {
                    assert(false);
                }
                return Err(DecodeError::MalformedPacket);
            },
        };
        let v = 1 + l;
        let (name, c1) = read_field(&base.bytes, v)?;
        if v + c1 >= base.bytes.len() {
            return Err(DecodeError::MalformedPacket);
        }
        let level = base.bytes[v + c1];
        Ok(BaseConnect { msg_type: TypeKind::CONNECT, protocol_name: name, protocol_level: level })
    }

    pub fn get_message_type(&self) -> (r: TypeKind)
        ensures
            r == self.msg_type,
    {
        self.msg_type
    }

    /// The protocol level, when the byte is a known v3 level.
    pub fn get_protocol_level(&self) -> (r: Option<MqttProtocolLevel>)
        ensures
            r == spec_level_of_byte(self@.1),
    {
        level_of_byte(self.protocol_level)
    }

    /// The protocol name bytes.
    pub fn get_protocol_name(&self) -> (r: Vec<u8>)
        ensures
            r@ == self@.0,
    {
        self.protocol_name.clone()
    }
}

impl View for BaseConnect {
    type V = (Seq<u8>, u8);

    open spec fn view(&self) -> (Seq<u8>, u8) {
        (self.protocol_name@, self.protocol_level)
    }
}

/// The protocol names and levels this broker accepts: `MQTT` at level 4
/// (v3.1.1) and `MQIsdp` at level 3 (v3.1).
pub open spec fn spec_acceptable_protocol(name: Seq<u8>, level: MqttProtocolLevel) -> bool {
    (name == seq![77u8, 81u8, 84u8, 84u8] && level == MqttProtocolLevel::Level4) || (name == seq![
        77u8,
        81u8,
        73u8,
        115u8,
        100u8,
        112u8,
    ] && level == MqttProtocolLevel::Level3)
}

/// The (name, level) pair is one the broker accepts.
pub fn acceptable_protocol(name: &Vec<u8>, level: MqttProtocolLevel) -> (r: bool)
    ensures
        r == spec_acceptable_protocol(name@, level),
{
    if level == MqttProtocolLevel::Level4 {
        let ok = name.len() == 4 && name[0] == 77 && name[1] == 81 && name[2] == 84 && name[3]
            == 84;
        proof {
            if ok {
                assert(name@ =~= seq![77u8, 81u8, 84u8, 84u8]);
            } else {
                assert(name@ != seq![77u8, 81u8, 84u8, 84u8]);
            }
            assert(name@ != seq![77u8, 81u8, 73u8, 115u8, 100u8, 112u8] || false == (
            MqttProtocolLevel::Level4 == MqttProtocolLevel::Level3));
        }
        ok
    } else {
        let ok = name.len() == 6 && name[0] == 77 && name[1] == 81 && name[2] == 73 && name[3]
            == 115 && name[4] == 100 && name[5] == 112;
        proof {
            if ok {
                assert(name@ =~= seq![77u8, 81u8, 73u8, 115u8, 100u8, 112u8]);
            } else {
                assert(name@ != seq![77u8, 81u8, 73u8, 115u8, 100u8, 112u8]);
            }
        }
        ok
    }
}

impl MqttMessage for ConnectMessage {
    fn get_message_type(&self) -> TypeKind {
        self.msg_type
    }
}

impl MqttBytesMessage for ConnectMessage {
    fn as_bytes(&self) -> &[u8] {
        self.bytes.as_slice()
    }
}

} // verus!
