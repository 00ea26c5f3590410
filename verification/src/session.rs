//! Per-client session state: identity, protocol, will settings, keep-alive
//! and clean-session flag, with the Uninitialized, Established, Terminated
//! life cycle. The first packet a session receives must be CONNECT; any
//! other packet in the Uninitialized state terminates the connection.

use vstd::prelude::*;
use crate::protocol::{MqttQos, MqttProtocolLevel};

verus! {

/// Where a session stands in its life cycle.
#[derive(Clone, Copy, Debug, PartialEq, Eq, Structural)]
pub enum SessionState {
    Uninitialized,
    Established,
    Terminated,
}

/// The state the broker keeps for one connected client. The outbound
/// channel that delivers events to the transport lives outside this crate;
/// this is the data the handler reads and writes.
#[derive(Clone, Debug)]
pub struct ServerSession {
    pub state: SessionState,
    pub client_id: Vec<u8>,
    pub protocol_name: Vec<u8>,
    pub protocol_level: Option<MqttProtocolLevel>,
    pub clean_session: Option<bool>,
    pub will_flag: bool,
    pub will_qos: MqttQos,
    pub will_retain: bool,
    pub will_topic: Vec<u8>,
    pub will_message: Vec<u8>,
    pub keep_alive: u16,
    pub user_name: Option<Vec<u8>>,
    pub password: Option<Vec<u8>>,
    /// Which live-session registration this session holds: the broker hands
    /// one out per accepted CONNECT, so an eviction can name the session it
    /// evicts rather than every session that ever used the client id.
    pub token: u64,
}

impl ServerSession {
    /// A fresh session: no client id, no protocol, nothing granted yet.
    pub fn new() -> (r: Self)
        ensures
            r.state == SessionState::Uninitialized,
            r.client_id@ == Seq::<u8>::empty(),
            r.clean_session is None,
            r.protocol_level is None,
            !r.will_flag,
            r.token == 0,
    {
        ServerSession {
            state: SessionState::Uninitialized,
            client_id: Vec::new(),
            protocol_name: Vec::new(),
            protocol_level: None,
            clean_session: None,
            will_flag: false,
            will_qos: MqttQos::Qos0,
            will_retain: false,
            will_topic: Vec::new(),
            will_message: Vec::new(),
            keep_alive: 0,
            user_name: None,
            password: None,
            token: 0,
        }
    }

    /// Records the protocol name and level a CONNECT announced.
    pub fn init_protocol(&mut self, protocol_name: Vec<u8>, protocol_level: MqttProtocolLevel)
        ensures
            final(self).protocol_name@ == protocol_name@,
            final(self).protocol_level == Some(protocol_level),
            final(self).state == old(self).state,
            final(self).client_id == old(self).client_id,
            final(self).clean_session == old(self).clean_session,
            final(self).will_flag == old(self).will_flag,
            final(self).will_qos == old(self).will_qos,
            final(self).will_retain == old(self).will_retain,
            final(self).will_topic == old(self).will_topic,
            final(self).will_message == old(self).will_message,
            final(self).keep_alive == old(self).keep_alive,
            final(self).user_name == old(self).user_name,
            final(self).password == old(self).password,
            final(self).token == old(self).token,
    {
        self.protocol_name = protocol_name;
        self.protocol_level = Some(protocol_level);
    }

    /// Establishes the session from an accepted CONNECT: identity, will
    /// settings, keep-alive, clean-session flag and credentials.
    pub fn init(
        &mut self,
        client_id: Vec<u8>,
        will_flag: bool,
        will_qos: MqttQos,
        will_retain: bool,
        will_topic: Vec<u8>,
        will_message: Vec<u8>,
        keep_alive: u16,
        clean_session: bool,
        user_name: Option<Vec<u8>>,
        password: Option<Vec<u8>>,
    )
        ensures
            final(self).state == SessionState::Established,
            final(self).client_id@ == client_id@,
            final(self).will_flag == will_flag,
            final(self).will_qos == will_qos,
            final(self).will_retain == will_retain,
            final(self).will_topic@ == will_topic@,
            final(self).will_message@ == will_message@,
            final(self).keep_alive == keep_alive,
            final(self).clean_session == Some(clean_session),
            final(self).user_name == user_name,
            final(self).password == password,
            final(self).protocol_name == old(self).protocol_name,
            final(self).protocol_level == old(self).protocol_level,
            final(self).token == old(self).token,
    {
        self.state = SessionState::Established;
        self.client_id = client_id;
        self.will_flag = will_flag;
        self.will_qos = will_qos;
        self.will_retain = will_retain;
        self.will_topic = will_topic;
        self.will_message = will_message;
        self.keep_alive = keep_alive;
        self.clean_session = Some(clean_session);
        self.user_name = user_name;
        self.password = password;
    }

    /// Marks the session closed; nothing more will be handled for it.
    pub fn terminate(&mut self)
        ensures
            final(self).state == SessionState::Terminated,
            final(self).client_id == old(self).client_id,
            final(self).clean_session == old(self).clean_session,
            final(self).will_flag == old(self).will_flag,
            final(self).will_topic == old(self).will_topic,
            final(self).will_message == old(self).will_message,
            final(self).token == old(self).token,
    {
        self.state = SessionState::Terminated;
    }

    pub fn is_will_flag(&self) -> (r: bool)
        ensures
            r == self.will_flag,
    {
        self.will_flag
    }

    pub fn get_will_topic(&self) -> (r: &Vec<u8>)
        ensures
            r@ == self.will_topic@,
    {
        &self.will_topic
    }

    pub fn get_will_message(&self) -> (r: &Vec<u8>)
        ensures
            r@ == self.will_message@,
    {
        &self.will_message
    }

    pub fn get_client_id(&self) -> (r: &Vec<u8>)
        ensures
            r@ == self.client_id@,
    {
        &self.client_id
    }
}

} // verus!
