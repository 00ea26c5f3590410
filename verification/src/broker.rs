//! The per-client event handler: the pure step function from broker state,
//! session state and one event to the new state, a return kind for the
//! transport, and the broadcast actions to route to other clients. The
//! async event loop, channels and sockets live outside this crate and only
//! perform what these functions decide.

use vstd::prelude::*;
use crate::protocol::{TypeKind, MqttQos, MqttProtocolLevel, ReasonCodeV3, DecodeError, spec_qos_byte, spec_reason_byte, qos_byte};
use crate::codec::MAX_REMAINING_LENGTH;
use crate::message::{
    BaseMessage, MqttMessageKind, MqttMessageV3, PublishMessage, SubscribeMessage, SubackMessage,
    UnsubscribeMessage, ConnackMessage, spec_encode_ack, spec_encode_connack, spec_encode_suback,
    spec_encode_publish, encode_ack,
};
use crate::connect::{ConnectMessage, ConnectView, acceptable_protocol, spec_acceptable_protocol, spec_opt_view};
use crate::session::{ServerSession, SessionState};
use crate::container::{MessageContainer, MessageFrame, RecordView, spec_rec_key};
use crate::subscript::{TopicSubscript, SubView, spec_sub_key};
use crate::topic::{spec_topic_match, spec_valid_filter, valid_filter, bytes_eq};

verus! {

/// A published message as it travels between handlers: who published it,
/// where, with which flags and identifier, and its payload.
#[derive(Clone, Debug)]
pub struct PublishContent {
    pub from_client_id: Vec<u8>,
    pub topic: Vec<u8>,
    pub qos: MqttQos,
    pub retain: bool,
    pub dup: bool,
    pub message_id: u16,
    pub payload: Vec<u8>,
}

/// Spec-level view of a published message.
pub struct ContentView {
    pub from_client_id: Seq<u8>,
    pub topic: Seq<u8>,
    pub qos: MqttQos,
    pub retain: bool,
    pub dup: bool,
    pub message_id: u16,
    pub payload: Seq<u8>,
}

impl View for PublishContent {
    type V = ContentView;

    open spec fn view(&self) -> ContentView {
        ContentView {
            from_client_id: self.from_client_id@,
            topic: self.topic@,
            qos: self.qos,
            retain: self.retain,
            dup: self.dup,
            message_id: self.message_id,
            payload: self.payload@,
        }
    }
}

/// The field sizes a content must respect to be encodable.
pub open spec fn spec_content_sizes(c: ContentView) -> bool {
    &&& c.topic.len() <= 0xFFFF
    &&& 4 + c.topic.len() + c.payload.len() <= MAX_REMAINING_LENGTH
    &&& c.qos != MqttQos::Failure
}

/// One event on a handler's channel.
#[derive(Debug)]
pub enum HandleEvent {
    /// Raw bytes from this client's transport.
    InputEvent(Vec<u8>),
    /// A message another handler broadcast: the publisher's id and the
    /// content.
    BroadcastEvent(Vec<u8>, PublishContent),
    /// An order to terminate; true asks for the will to be published.
    ExitEvent(bool),
    /// Pre-encoded bytes to forward to the transport as they are.
    OutputEvent(Vec<u8>),
}

/// What one handled event tells the transport to do.
#[derive(Debug)]
pub enum ReturnKind {
    /// Nothing to write; keep reading.
    Continue,
    /// Write these bytes, then keep reading.
    Response(Vec<u8>),
    /// Close the connection.
    Exit,
}

/// One routing action the surrounding loop must perform.
#[derive(Debug)]
pub enum BrokerAction {
    /// Enqueue this content, from the named publisher, on the handler of
    /// the named subscriber.
    Publish(Vec<u8>, PublishContent),
    /// Enqueue an exit without will on the handler of the named client:
    /// session take-over.
    Evict(Vec<u8>),
}

/// Spec-level view of a routing action.
pub enum ActionView {
    Publish(Seq<u8>, ContentView),
    Evict(Seq<u8>),
}

impl View for BrokerAction {
    type V = ActionView;

    open spec fn view(&self) -> ActionView {
        match self {
            BrokerAction::Publish(to, c) => ActionView::Publish(to@, c@),
            BrokerAction::Evict(to) => ActionView::Evict(to@),
        }
    }
}

/// The views of a list of actions.
pub open spec fn actions_view(v: Seq<BrokerAction>) -> Seq<ActionView> {
    v.map_values(|a: BrokerAction| a@)
}

/// The publish actions among `v` that go to the subscriber `to`, in order.
pub open spec fn spec_deliveries_to(v: Seq<ActionView>, to: Seq<u8>) -> Seq<ActionView> {
    v.filter(
        |a: ActionView|
            match a {
                ActionView::Publish(t, _) => t == to,
                ActionView::Evict(_) => false,
            },
    )
}

/// Per-subscriber delivery order equals emission order: the deliveries one
/// subscriber sees from a stream of actions emitted by two events in order
/// are the deliveries of the first event followed by those of the second.
/// The per-subscriber channel is a queue, so what holds of the emitted
/// stream holds of the received one.
pub proof fn lemma_per_pair_order(a: Seq<ActionView>, b: Seq<ActionView>, to: Seq<u8>)
    ensures
        spec_deliveries_to(a + b, to) == spec_deliveries_to(a, to) + spec_deliveries_to(b, to),
{
    Seq::filter_distributes_over_add(
        a,
        b,
        |av: ActionView|
            match av {
                ActionView::Publish(t, _) => t == to,
                ActionView::Evict(_) => false,
            },
    );
}

/// One live session: its client id and the registration token its handler
/// holds. Tokens let an eviction name the one session it evicts, so a
/// successor that reuses the client id is never mistaken for it.
#[derive(Clone, Debug)]
pub struct LiveEntry {
    pub client_id: Vec<u8>,
    pub token: u64,
}

/// Spec-level view of a live-session registration.
pub struct LiveView {
    pub client_id: Seq<u8>,
    pub token: u64,
}

impl View for LiveEntry {
    type V = LiveView;

    open spec fn view(&self) -> LiveView {
        LiveView { client_id: self.client_id@, token: self.token }
    }
}

/// The views of a list of live registrations.
pub open spec fn live_view(v: Seq<LiveEntry>) -> Seq<LiveView> {
    v.map_values(|e: LiveEntry| e@)
}

/// The whole broker state one handler mutates: the subscription registry,
/// the in-flight store, the live sessions, and the counter that stamps each
/// accepted CONNECT with a fresh registration token.
pub struct Broker {
    pub subscript: TopicSubscript,
    pub container: MessageContainer,
    pub live: Vec<LiveEntry>,
    pub next_token: u64,
}

impl Broker {
    /// The registries keep their key uniqueness, and no client id is live
    /// twice.
    pub open spec fn wf(self) -> bool {
        &&& self.subscript.wf()
        &&& self.container.wf()
        &&& forall|i: int, j: int|
            0 <= i < j < live_view(self.live@).len() ==> (#[trigger] live_view(
                self.live@,
            )[i]).client_id != (#[trigger] live_view(self.live@)[j]).client_id
    }

    /// Some live session has this client id.
    pub open spec fn spec_is_live(self, cid: Seq<u8>) -> bool {
        exists|i: int|
            0 <= i < live_view(self.live@).len() && (#[trigger] live_view(
                self.live@,
            )[i]).client_id == cid
    }

    /// A broker with no sessions, no subscriptions and nothing in flight.
    pub fn new() -> (r: Self)
        ensures
            r.wf(),
            r.subscript@ == Seq::<SubView>::empty(),
            r.container@ == Seq::<RecordView>::empty(),
            r.live@.len() == 0,
            r.next_token == 1,
    {
        let r = Broker {
            subscript: TopicSubscript::new(),
            container: MessageContainer::new(),
            live: Vec::new(),
            next_token: 1,
        };
        proof {
            assert(live_view(r.live@) =~= Seq::<LiveView>::empty());
        }
        r
    }

    fn is_live(&self, cid: &Vec<u8>) -> (r: bool)
        ensures
            r == self.spec_is_live(cid@),
    {
        let n = self.live.len();
        let mut k: usize = 0;
        while k < n
            invariant
                n == self.live@.len(),
                k <= n,
                forall|i: int| 0 <= i < k ==> (#[trigger] live_view(self.live@)[i]).client_id != cid@,
            decreases n - k,
        {
            if bytes_eq(&self.live[k].client_id, cid) {
                proof {
                    assert((live_view(self.live@)[k as int]).client_id == cid@);
                }
                return true;
            }
            k = k + 1;
        }
        false
    }
}

/// Drops every live registration matching the predicate the caller encodes
/// by id and token: a registration leaves only when both agree, so an
/// evicted session never unregisters its successor.
fn remove_live(live: &mut Vec<LiveEntry>, cid: &Vec<u8>, token: u64)
    ensures
        live_view(final(live)@) == live_view(old(live)@).filter(
            |e: LiveView| !(e.client_id == cid@ && e.token == token),
        ),
{
    let ghost orig = live_view(live@);
    let ghost pred = |e: LiveView| !(e.client_id == cid@ && e.token == token);
    let mut k: usize = 0;
    let mut jj: Ghost<int> = Ghost(0);
    proof {
        reveal(Seq::filter);
        assert(orig.subrange(0, 0).filter(pred) =~= Seq::<LiveView>::empty());
        assert(live_view(live@) =~= orig.subrange(0, 0).filter(pred) + orig.skip(0));
    }
    while k < live.len()
        invariant
            orig == live_view(old(live)@),
            pred == (|e: LiveView| !(e.client_id == cid@ && e.token == token)),
            0 <= jj@ <= orig.len(),
            live_view(live@) == orig.subrange(0, jj@).filter(pred) + orig.skip(jj@),
            k == orig.subrange(0, jj@).filter(pred).len(),
            k <= live@.len(),
        decreases orig.len() - jj@,
    {
        let ghost j = jj@;
        proof {
            assert(orig.skip(j)[0] == orig[j]);
            assert(live_view(live@)[k as int] == orig[j]);
            reveal(Seq::filter);
            assert(orig.subrange(0, j + 1).drop_last() =~= orig.subrange(0, j));
            assert(orig.subrange(0, j + 1).last() == orig[j]);
        }
        if bytes_eq(&live[k].client_id, cid) && live[k].token == token {
            let _ = live.remove(k);
            proof {
                assert(orig.subrange(0, j + 1).filter(pred) =~= orig.subrange(0, j).filter(pred));
                assert(live_view(live@) =~= orig.subrange(0, j + 1).filter(pred) + orig.skip(
                    j + 1,
                )) by {
                    assert(live_view(live@) =~= (orig.subrange(0, j).filter(pred) + orig.skip(
                        j,
                    )).remove(k as int));
                    assert((orig.subrange(0, j).filter(pred) + orig.skip(j)).remove(k as int)
                        =~= orig.subrange(0, j).filter(pred) + orig.skip(j + 1));
                }
            }
        } else {
            k = k + 1;
            proof {
                assert(orig.subrange(0, j + 1).filter(pred) =~= orig.subrange(0, j).filter(
                    pred,
                ).push(orig[j]));
                assert(live_view(live@) =~= orig.subrange(0, j + 1).filter(pred) + orig.skip(
                    j + 1,
                ));
            }
        }
        proof {
            jj@ = j + 1;
        }
    }
    proof {
        assert(orig.skip(jj@) =~= Seq::<LiveView>::empty()) by {
            assert(live_view(live@).len() == orig.subrange(0, jj@).filter(pred).len() + orig.skip(
                jj@,
            ).len());
        }
        assert(jj@ == orig.len());
        assert(orig.subrange(0, jj@) =~= orig);
        assert(live_view(live@) =~= orig.filter(pred));
    }
}

/// Drops every live registration with this client id, whatever its token:
/// what an accepted CONNECT does before registering itself.
fn drop_live_cid(live: &mut Vec<LiveEntry>, cid: &Vec<u8>)
    ensures
        live_view(final(live)@) == live_view(old(live)@).filter(
            |e: LiveView| e.client_id != cid@,
        ),
{
    let ghost orig = live_view(live@);
    let ghost pred = |e: LiveView| e.client_id != cid@;
    let mut k: usize = 0;
    let mut jj: Ghost<int> = Ghost(0);
    proof {
        reveal(Seq::filter);
        assert(orig.subrange(0, 0).filter(pred) =~= Seq::<LiveView>::empty());
        assert(live_view(live@) =~= orig.subrange(0, 0).filter(pred) + orig.skip(0));
    }
    while k < live.len()
        invariant
            orig == live_view(old(live)@),
            pred == (|e: LiveView| e.client_id != cid@),
            0 <= jj@ <= orig.len(),
            live_view(live@) == orig.subrange(0, jj@).filter(pred) + orig.skip(jj@),
            k == orig.subrange(0, jj@).filter(pred).len(),
            k <= live@.len(),
        decreases orig.len() - jj@,
    {
        let ghost j = jj@;
        proof {
            assert(orig.skip(j)[0] == orig[j]);
            assert(live_view(live@)[k as int] == orig[j]);
            reveal(Seq::filter);
            assert(orig.subrange(0, j + 1).drop_last() =~= orig.subrange(0, j));
            assert(orig.subrange(0, j + 1).last() == orig[j]);
        }
        if bytes_eq(&live[k].client_id, cid) {
            let _ = live.remove(k);
            proof {
                assert(orig.subrange(0, j + 1).filter(pred) =~= orig.subrange(0, j).filter(pred));
                assert(live_view(live@) =~= orig.subrange(0, j + 1).filter(pred) + orig.skip(
                    j + 1,
                )) by {
                    assert(live_view(live@) =~= (orig.subrange(0, j).filter(pred) + orig.skip(
                        j,
                    )).remove(k as int));
                    assert((orig.subrange(0, j).filter(pred) + orig.skip(j)).remove(k as int)
                        =~= orig.subrange(0, j).filter(pred) + orig.skip(j + 1));
                }
            }
        } else {
            k = k + 1;
            proof {
                assert(orig.subrange(0, j + 1).filter(pred) =~= orig.subrange(0, j).filter(
                    pred,
                ).push(orig[j]));
                assert(live_view(live@) =~= orig.subrange(0, j + 1).filter(pred) + orig.skip(
                    j + 1,
                ));
            }
        }
        proof {
            jj@ = j + 1;
        }
    }
    proof {
        assert(orig.skip(jj@) =~= Seq::<LiveView>::empty()) by {
            assert(live_view(live@).len() == orig.subrange(0, jj@).filter(pred).len() + orig.skip(
                jj@,
            ).len());
        }
        assert(jj@ == orig.len());
        assert(orig.subrange(0, jj@) =~= orig);
        assert(live_view(live@) =~= orig.filter(pred));
    }
}

/// Filtering the live list keeps its pairwise-distinct client ids distinct.
proof fn lemma_live_filter_wf(v: Seq<LiveView>, pred: spec_fn(LiveView) -> bool)
    requires
        forall|i: int, j: int|
            0 <= i < j < v.len() ==> (#[trigger] v[i]).client_id != (#[trigger] v[j]).client_id,
    ensures
        forall|i: int, j: int|
            0 <= i < j < v.filter(pred).len() ==> (#[trigger] v.filter(pred)[i]).client_id != (
            #[trigger] v.filter(pred)[j]).client_id,
    decreases v.len(),
{
    reveal(Seq::filter);
    if v.len() > 0 {
        lemma_live_filter_wf(v.drop_last(), pred);
        let f = v.filter(pred);
        let fd = v.drop_last().filter(pred);
        assert forall|i: int, j: int| 0 <= i < j < f.len() implies (#[trigger] f[i]).client_id
            != (#[trigger] f[j]).client_id by {
            if pred(v.last()) {
                if j < fd.len() {
                    assert(f[i] == fd[i] && f[j] == fd[j]);
                } else {
                    assert(f[j] == v.last());
                    assert(f[i] == fd[i]);
                    lemma_live_filter_member(v.drop_last(), pred, i);
                }
            } else {
                assert(f[i] == fd[i] && f[j] == fd[j]);
            }
        }
    }
}

/// Every filtered live registration is one of the original.
proof fn lemma_live_filter_member(v: Seq<LiveView>, pred: spec_fn(LiveView) -> bool, i: int)
    requires
        0 <= i < v.filter(pred).len(),
    ensures
        exists|k: int| 0 <= k < v.len() && #[trigger] v[k] == v.filter(pred)[i],
    decreases v.len(),
{
    reveal(Seq::filter);
    if v.len() > 0 {
        let fd = v.drop_last().filter(pred);
        if i < fd.len() {
            lemma_live_filter_member(v.drop_last(), pred, i);
            let k = choose|k: int|
                0 <= k < v.drop_last().len() && #[trigger] v.drop_last()[k] == fd[i];
            assert(v[k] == v.filter(pred)[i]);
        } else {
            assert(v.filter(pred)[i] == v.last());
            assert(v[v.len() - 1] == v.filter(pred)[i]);
        }
    }
}

/// The matching fan-out of one content on one topic: a publish action for
/// every registry entry whose filter matches, in registration order, each
/// carrying the same content.
pub open spec fn spec_fanout(subs: Seq<SubView>, topic: Seq<u8>, c: ContentView) -> Seq<
    ActionView,
> {
    subs.filter(|e: SubView| spec_topic_match(e.topic_filter, topic)).map_values(
        |e: SubView| ActionView::Publish(e.client_id, c),
    )
}

/// Builds the fan-out actions for one content.
fn fanout(subscript: &TopicSubscript, topic: &Vec<u8>, c: &PublishContent) -> (r: Vec<
    BrokerAction,
>)
    ensures
        actions_view(r@) == spec_fanout(subscript@, topic@, c@),
{
    let matches = subscript.matching_subscribers(topic);
    let mut out: Vec<BrokerAction> = Vec::new();
    let n = matches.len();
    let mut k: usize = 0;
    let ghost ms = matches@;
    proof {
        assert(actions_view(out@) =~= Seq::<ActionView>::empty());
    }
    while k < n
        invariant
            n == ms.len(),
            k <= n,
            matches@ == ms,
            ms.map_values(|p: (Vec<u8>, MqttQos)| (p.0@, p.1)) == subscript@.filter(
                |e: SubView| spec_topic_match(e.topic_filter, topic@),
            ).map_values(|e: SubView| (e.client_id, e.qos)),
            out@.len() == k,
            forall|i: int|
                0 <= i < k ==> (#[trigger] actions_view(out@)[i]) == ActionView::Publish(
                    ms[i].0@,
                    c@,
                ),
        decreases n - k,
    {
        let to = matches[k].0.clone();
        let content = PublishContent {
            from_client_id: c.from_client_id.clone(),
            topic: c.topic.clone(),
            qos: c.qos,
            retain: c.retain,
            dup: c.dup,
            message_id: c.message_id,
            payload: c.payload.clone(),
        };
        let ghost tv = to@;
        let ghost cv = content@;
        let ghost prev = out@;
        out.push(BrokerAction::Publish(to, content));
        proof {
            assert(cv == c@);
            assert(tv == ms[k as int].0@);
            assert(out@ =~= prev.push(out@[out@.len() - 1]));
            assert(out@[out@.len() - 1]@ == ActionView::Publish(tv, cv));
            assert forall|i: int| 0 <= i < k + 1 implies (#[trigger] actions_view(out@)[i])
                == ActionView::Publish(ms[i].0@, c@) by {
                if i < k {
                    assert(actions_view(out@)[i] == actions_view(prev)[i]);
                }
            }
        }
        k = k + 1;
    }
    proof {
        let fseq = subscript@.filter(|e: SubView| spec_topic_match(e.topic_filter, topic@));
        assert(actions_view(out@) =~= spec_fanout(subscript@, topic@, c@)) by {
            assert(fseq.map_values(|e: SubView| (e.client_id, e.qos)).len() == fseq.len());
            assert forall|i: int| 0 <= i < out@.len() implies actions_view(out@)[i]
                == spec_fanout(subscript@, topic@, c@)[i] by {
                assert(ms.map_values(|p: (Vec<u8>, MqttQos)| (p.0@, p.1))[i] == fseq.map_values(
                    |e: SubView| (e.client_id, e.qos),
                )[i]);
                assert(ms[i].0@ == fseq[i].client_id);
            }
        }
    }
    out
}

/// Handles an inbound PUBLISH per its QoS. QoS 0 fans out at once with no
/// acknowledgement; QoS 1 fans out and answers PUBACK with the same
/// identifier; QoS 2 parks the message in the in-flight store, answers
/// PUBREC, and delivers nothing until PUBREL arrives, so a DUP
/// retransmission merely overwrites the parked copy.
pub fn handle_publish(broker: &mut Broker, session: &mut ServerSession, m: &PublishMessage) -> (r:
    (ReturnKind, Vec<BrokerAction>))
    requires
        old(broker).wf(),
        m.qos != MqttQos::Failure,
    ensures
        final(broker).wf(),
        final(broker).subscript == old(broker).subscript,
        final(broker).live == old(broker).live,
        final(broker).next_token == old(broker).next_token,
        *final(session) == *old(session),
        m.qos == MqttQos::Qos0 ==> {
            &&& r.0 is Continue
            &&& actions_view(r.1@) == spec_fanout(
                old(broker).subscript@,
                m.topic@,
                spec_content_of(m, old(session).client_id@),
            )
            &&& final(broker).container == old(broker).container
        },
        m.qos == MqttQos::Qos1 ==> {
            &&& (r.0 matches ReturnKind::Response(b) && b@ == spec_encode_ack(
                TypeKind::PUBACK,
                m.message_id,
            ))
            &&& actions_view(r.1@) == spec_fanout(
                old(broker).subscript@,
                m.topic@,
                spec_content_of(m, old(session).client_id@),
            )
            &&& final(broker).container == old(broker).container
        },
        m.qos == MqttQos::Qos2 ==> {
            &&& (r.0 matches ReturnKind::Response(b) && b@ == spec_encode_ack(
                TypeKind::PUBREC,
                m.message_id,
            ))
            &&& r.1@.len() == 0
            &&& final(broker).container@ == old(broker).container@.filter(
                |rv: RecordView| !spec_rec_key(rv, old(session).client_id@, m.message_id),
            ).push(
                RecordView {
                    client_id: old(session).client_id@,
                    message_id: m.message_id,
                    frame: crate::container::FrameView {
                        from_id: old(session).client_id@,
                        to_id: Seq::<u8>::empty(),
                        bytes: m.bytes@,
                        message_id: m.message_id,
                    },
                },
            )
        },
{
    let content = PublishContent {
        from_client_id: session.client_id.clone(),
        topic: m.topic.clone(),
        qos: m.qos,
        retain: m.retain,
        dup: m.dup,
        message_id: m.message_id,
        payload: m.msg_body.clone(),
    };
    match m.qos {
        MqttQos::Qos0 => {
            let acts = fanout(&broker.subscript, &m.topic, &content);
            (ReturnKind::Continue, acts)
        },
        MqttQos::Qos1 => {
            let acts = fanout(&broker.subscript, &m.topic, &content);
            (ReturnKind::Response(encode_ack(TypeKind::PUBACK, m.message_id)), acts)
        },
        _ => {
            let frame = MessageFrame::new(
                session.client_id.clone(),
                Vec::new(),
                m.bytes.clone(),
                m.message_id,
            );
            broker.container.append(&session.client_id, m.message_id, frame);
            (ReturnKind::Response(encode_ack(TypeKind::PUBREC, m.message_id)), Vec::new())
        },
    }
}

/// The content an inbound PUBLISH carries, attributed to its publisher.
pub open spec fn spec_content_of(m: &PublishMessage, from: Seq<u8>) -> ContentView {
    ContentView {
        from_client_id: from,
        topic: m.topic@,
        qos: m.qos,
        retain: m.retain,
        dup: m.dup,
        message_id: m.message_id,
        payload: m.msg_body@,
    }
}

/// Handles PUBREL: completes the in-flight entry for this client and
/// identifier, broadcasts the parked message now if one was awaiting
/// delivery, and answers PUBCOMP. A PUBREL whose entry is gone, because the
/// handshake already completed, broadcasts nothing: this is what makes QoS
/// 2 delivery happen at most once under retransmission.
pub fn handle_pubrel(broker: &mut Broker, session: &mut ServerSession, message_id: u16) -> (r: (
    ReturnKind,
    Vec<BrokerAction>,
))
    requires
        old(broker).wf(),
    ensures
        final(broker).wf(),
        final(broker).subscript == old(broker).subscript,
        final(broker).live == old(broker).live,
        final(broker).next_token == old(broker).next_token,
        *final(session) == *old(session),
        final(broker).container@ == old(broker).container@.filter(
            |rv: RecordView| !spec_rec_key(rv, old(session).client_id@, message_id),
        ),
        !final(broker).container.spec_contains(old(session).client_id@, message_id),
        r.0 matches ReturnKind::Response(b) && b@ == spec_encode_ack(
            TypeKind::PUBCOMP,
            message_id,
        ),
        !old(broker).container.spec_contains(old(session).client_id@, message_id) ==> r.1@.len()
            == 0,
        old(broker).container.spec_contains(old(session).client_id@, message_id) ==> ({
            let f = old(broker).container.spec_entry(old(session).client_id@, message_id);
            if f.to_id == Seq::<u8>::empty() {
                match spec_rebuild(f) {
                    Some(cv) => actions_view(r.1@) == spec_fanout(
                        old(broker).subscript@,
                        cv.topic,
                        cv,
                    ),
                    None => r.1@.len() == 0,
                }
            } else {
                r.1@.len() == 0
            }
        }),
{
    let taken = broker.container.complete(&session.client_id, message_id);
    let acts: Vec<BrokerAction> = match taken {
        Some(frame) => {
            proof {
                if frame@.to_id.len() == 0 {
                    assert(frame@.to_id =~= Seq::<u8>::empty());
                }
            }
            if frame.to_id.len() == 0 {
                match rebuild_content(&frame) {
                    Some(content) => fanout(&broker.subscript, &content.topic, &content),
                    None => Vec::new(),
                }
            } else {
                Vec::new()
            }
        },
        None => Vec::new(),
    };
    (ReturnKind::Response(encode_ack(TypeKind::PUBCOMP, message_id)), acts)
}

/// What a parked frame's bytes say, when they are a whole PUBLISH packet:
/// the content to fan out, attributed to the publisher the frame recorded.
pub open spec fn spec_rebuild(f: crate::container::FrameView) -> Option<ContentView> {
    match crate::message::spec_parse_base(f.bytes) {
        Ok(bv) => if bv.kind == TypeKind::PUBLISH {
            match crate::message::spec_parse_publish(f.bytes, bv.qos) {
                Some((topic, mid, body)) => Some(
                    ContentView {
                        from_client_id: f.from_id,
                        topic,
                        qos: bv.qos,
                        retain: bv.retain,
                        dup: bv.dup,
                        message_id: mid,
                        payload: body,
                    },
                ),
                None => None,
            }
        } else {
            None
        },
        Err(_) => None,
    }
}

/// Decodes a parked PUBLISH packet back into its content; `None` when the
/// stored bytes are not a whole PUBLISH packet.
fn rebuild_content(frame: &MessageFrame) -> (r: Option<PublishContent>)
    ensures
        match r {
            Some(c) => spec_rebuild(frame@) == Some(c@),
            None => spec_rebuild(frame@) is None,
        },
{
    let bytes = frame.bytes.clone();
    let base = match BaseMessage::decode(bytes) {
        Ok(b) => b,
        Err(_) => {
            return None;
        },
    };
    if base.msg_type != TypeKind::PUBLISH {
        return None;
    }
    let m = match PublishMessage::decode(&base) {
        Ok(m) => m,
        Err(_) => {
            return None;
        },
    };
    Some(
        PublishContent {
            from_client_id: frame.from_id.clone(),
            topic: m.topic,
            qos: m.qos,
            retain: m.retain,
            dup: m.dup,
            message_id: m.message_id,
            payload: m.msg_body,
        },
    )
}

/// Handles PUBREC: the peer holds our QoS 2 PUBLISH; answer PUBREL with
/// the same identifier.
pub fn handle_pubrec(message_id: u16) -> (r: (ReturnKind, Vec<BrokerAction>))
    ensures
        r.0 matches ReturnKind::Response(b) && b@ == spec_encode_ack(
            TypeKind::PUBREL,
            message_id,
        ),
        r.1@.len() == 0,
{
    (ReturnKind::Response(encode_ack(TypeKind::PUBREL, message_id)), Vec::new())
}

/// Handles PUBACK: the peer acknowledged our QoS 1 PUBLISH; nothing is
/// pending, nothing goes out.
pub fn handle_puback(message_id: u16) -> (r: (ReturnKind, Vec<BrokerAction>))
    ensures
        r.0 is Continue,
        r.1@.len() == 0,
{
    (ReturnKind::Continue, Vec::new())
}

/// Handles PUBCOMP: QoS 2 delivery to this client finished; clear the
/// in-flight entry, send nothing.
pub fn handle_pubcomp(broker: &mut Broker, session: &mut ServerSession, message_id: u16) -> (r: (
    ReturnKind,
    Vec<BrokerAction>,
))
    requires
        old(broker).wf(),
    ensures
        final(broker).wf(),
        final(broker).subscript == old(broker).subscript,
        final(broker).live == old(broker).live,
        final(broker).next_token == old(broker).next_token,
        *final(session) == *old(session),
        final(broker).container@ == old(broker).container@.filter(
            |rv: RecordView| !spec_rec_key(rv, old(session).client_id@, message_id),
        ),
        r.0 is Continue,
        r.1@.len() == 0,
{
    let _ = broker.container.complete(&session.client_id, message_id);
    (ReturnKind::Continue, Vec::new())
}

/// The registry a SUBSCRIBE batch leaves behind, processed in order from
/// entry `i`: each valid filter replaces any prior entry of this client for
/// the same filter and appends the new grant; invalid filters change
/// nothing.
pub open spec fn spec_subscribe_fold(
    s: Seq<SubView>,
    subs: Seq<SubscribeMessage>,
    cid: Seq<u8>,
    i: int,
) -> Seq<SubView>
    decreases subs.len() - i,
{
    if i < 0 || i >= subs.len() {
        s
    } else {
        let s2 = if spec_valid_filter(subs[i].topic@) {
            s.filter(|e: SubView| !spec_sub_key(e, subs[i].topic@, cid)).push(
                SubView { topic_filter: subs[i].topic@, client_id: cid, qos: subs[i].qos },
            )
        } else {
            s
        };
        spec_subscribe_fold(s2, subs, cid, i + 1)
    }
}

/// The SUBACK return code one requested subscription earns: the granted
/// QoS where the filter is valid, the failure sentinel where it is not.
pub open spec fn spec_grant_code(filter: Seq<u8>, qos: MqttQos) -> u8 {
    if spec_valid_filter(filter) {
        spec_qos_byte(qos)
    } else {
        0x80
    }
}

/// Handles a SUBSCRIBE batch: registers each valid filter at its requested
/// QoS, grants the failure sentinel to invalid filters, and answers one
/// SUBACK carrying the return codes in request order. An empty batch sends
/// nothing.
pub fn handle_subscribe(
    broker: &mut Broker,
    session: &mut ServerSession,
    subs: &Vec<SubscribeMessage>,
) -> (r: (ReturnKind, Vec<BrokerAction>))
    requires
        old(broker).wf(),
        2 + subs@.len() <= MAX_REMAINING_LENGTH,
        forall|i: int| 0 <= i < subs@.len() ==> (#[trigger] subs@[i]).qos != MqttQos::Failure,
    ensures
        final(broker).wf(),
        final(broker).container == old(broker).container,
        final(broker).live == old(broker).live,
        final(broker).next_token == old(broker).next_token,
        *final(session) == *old(session),
        r.1@.len() == 0,
        subs@.len() == 0 ==> r.0 is Continue && final(broker).subscript == old(broker).subscript,
        final(broker).subscript@ == spec_subscribe_fold(
            old(broker).subscript@,
            subs@,
            old(session).client_id@,
            0,
        ),
        subs@.len() > 0 ==> (r.0 matches ReturnKind::Response(b) && b@ == spec_encode_suback(
            subs@[0].message_id,
            Seq::new(subs@.len(), |i: int| spec_grant_code(subs@[i].topic@, subs@[i].qos)),
        )),
        forall|i: int|
            0 <= i < subs@.len() && spec_valid_filter((#[trigger] subs@[i]).topic@)
                ==> final(broker).subscript.spec_is_subscribed(
                subs@[i].topic@,
                old(session).client_id@,
            ),
{
    if subs.len() == 0 {
        return (ReturnKind::Continue, Vec::new());
    }
    let ghost codes_spec = Seq::new(
        subs@.len(),
        |i: int| spec_grant_code(subs@[i].topic@, subs@[i].qos),
    );
    let mut codes: Vec<u8> = Vec::new();
    let n = subs.len();
    let mut k: usize = 0;
    while k < n
        invariant
            old(broker).wf(),
            broker.wf(),
            n == subs@.len(),
            k <= n,
            forall|i: int| 0 <= i < subs@.len() ==> (#[trigger] subs@[i]).qos != MqttQos::Failure,
            codes_spec == Seq::new(
                subs@.len(),
                |i: int| spec_grant_code(subs@[i].topic@, subs@[i].qos),
            ),
            codes@ == codes_spec.subrange(0, k as int),
            *session == *old(session),
            spec_subscribe_fold(broker.subscript@, subs@, old(session).client_id@, k as int)
                == spec_subscribe_fold(
                old(broker).subscript@,
                subs@,
                old(session).client_id@,
                0,
            ),
            broker.container == old(broker).container,
            broker.live == old(broker).live,
            broker.next_token == old(broker).next_token,
            forall|i: int|
                0 <= i < k && spec_valid_filter((#[trigger] subs@[i]).topic@)
                    ==> broker.subscript.spec_is_subscribed(
                    subs@[i].topic@,
                    old(session).client_id@,
                ),
        decreases n - k,
    {
        let sm = &subs[k];
        if valid_filter(&sm.topic) {
            let tf = sm.topic.clone();
            let cid = session.client_id.clone();
            let ghost prev = broker.subscript@;
            broker.subscript.subscribe(tf, cid, sm.qos);
            proof {
                assert(broker.subscript@ == prev.filter(
                    |e: SubView| !spec_sub_key(e, subs@[k as int].topic@, old(session).client_id@),
                ).push(
                    SubView {
                        topic_filter: subs@[k as int].topic@,
                        client_id: old(session).client_id@,
                        qos: subs@[k as int].qos,
                    },
                ));
                assert forall|i: int|
                    0 <= i < k + 1 && spec_valid_filter((#[trigger] subs@[i]).topic@)
                        implies broker.subscript.spec_is_subscribed(
                        subs@[i].topic@,
                        old(session).client_id@,
                    ) by {
                    if i < k {
                        lemma_subscribed_preserved(
                            prev,
                            broker.subscript@,
                            subs@[i].topic@,
                            old(session).client_id@,
                            subs@[k as int].topic@,
                            subs@[k as int].qos,
                        );
                    }
                }
            }
            codes.push(qos_byte(sm.qos));
        } else {
            codes.push(0x80);
        }
        proof {
            assert(codes@ =~= codes_spec.subrange(0, k + 1));
        }
        k = k + 1;
    }
    proof {
        assert(codes_spec.subrange(0, n as int) =~= codes_spec);
    }
    let ack = SubackMessage::with_codes(subs[0].message_id, codes);
    (ReturnKind::Response(ack.bytes), Vec::new())
}

/// A subscription present before a `subscribe` of some other or the same
/// pair is still present after it.
proof fn lemma_subscribed_preserved(
    prev: Seq<SubView>,
    cur: Seq<SubView>,
    filter: Seq<u8>,
    cid: Seq<u8>,
    new_filter: Seq<u8>,
    new_qos: MqttQos,
)
    requires
        cur == prev.filter(|e: SubView| !spec_sub_key(e, new_filter, cid)).push(
            SubView { topic_filter: new_filter, client_id: cid, qos: new_qos },
        ),
        exists|i: int| 0 <= i < prev.len() && spec_sub_key(#[trigger] prev[i], filter, cid),
    ensures
        exists|i: int| 0 <= i < cur.len() && spec_sub_key(#[trigger] cur[i], filter, cid),
{
    if filter == new_filter {
        let n = cur.len() - 1;
        assert(spec_sub_key(cur[n], filter, cid));
    } else {
        let i = choose|i: int| 0 <= i < prev.len() && spec_sub_key(#[trigger] prev[i], filter, cid);
        let pred = |e: SubView| !spec_sub_key(e, new_filter, cid);
        assert(pred(prev[i]));
        prev.lemma_filter_contains(pred, i);
        let f = prev.filter(pred);
        let j = choose|j: int| 0 <= j < f.len() && f[j] == prev[i];
        assert(cur[j] == prev[i]);
        assert(spec_sub_key(cur[j], filter, cid));
    }
}

/// Handles UNSUBSCRIBE: drops the (filter, client) subscription when it is
/// present, and answers UNSUBACK with the same identifier either way.
pub fn handle_unsubscribe(
    broker: &mut Broker,
    session: &mut ServerSession,
    m: &UnsubscribeMessage,
) -> (r: (ReturnKind, Vec<BrokerAction>))
    requires
        old(broker).wf(),
    ensures
        final(broker).wf(),
        final(broker).container == old(broker).container,
        final(broker).live == old(broker).live,
        final(broker).next_token == old(broker).next_token,
        *final(session) == *old(session),
        r.1@.len() == 0,
        r.0 matches ReturnKind::Response(b) && b@ == spec_encode_ack(
            TypeKind::UNSUBACK,
            m.message_id,
        ),
        !final(broker).subscript.spec_is_subscribed(m.topic@, old(session).client_id@),
        final(broker).subscript@ == old(broker).subscript@.filter(
            |e: SubView| !spec_sub_key(e, m.topic@, old(session).client_id@),
        ),
{
    broker.subscript.unsubscribe(&m.topic, &session.client_id);
    (ReturnKind::Response(encode_ack(TypeKind::UNSUBACK, m.message_id)), Vec::new())
}

/// Handles DISCONNECT: the will is not sent on a graceful disconnect. The
/// client's subscriptions go away; with a clean session its in-flight table
/// goes away too; the session terminates with nothing written back.
pub fn handle_disconnect(broker: &mut Broker, session: &mut ServerSession) -> (r: (
    ReturnKind,
    Vec<BrokerAction>,
))
    requires
        old(broker).wf(),
    ensures
        final(broker).wf(),
        r.0 is Exit,
        r.1@.len() == 0,
        final(session).state == SessionState::Terminated,
        final(session).client_id == old(session).client_id,
        !final(broker).subscript.spec_has_client(old(session).client_id@),
        old(session).clean_session == Some(true) ==> !final(broker).container.spec_has_client(
            old(session).client_id@,
        ),
        old(session).clean_session != Some(true) ==> final(broker).container == old(
            broker,
        ).container,
        final(broker).next_token == old(broker).next_token,
        live_view(final(broker).live@) == live_view(old(broker).live@).filter(
            |e: LiveView| !(e.client_id == old(session).client_id@ && e.token == old(
                session,
            ).token),
        ),
{
    broker.subscript.exit(&session.client_id);
    let clean = match session.clean_session {
        Some(c) => c,
        None => false,
    };
    if clean {
        broker.container.remove(&session.client_id);
    }
    remove_live(&mut broker.live, &session.client_id, session.token);
    proof {
        lemma_live_filter_wf(
            live_view(old(broker).live@),
            |e: LiveView| !(e.client_id == old(session).client_id@ && e.token == old(
                session,
            ).token),
        );
    }
    session.terminate();
    (ReturnKind::Exit, Vec::new())
}

/// Handles an exit order. When the order asks for the will and the session
/// registered one at CONNECT, the will message is fanned out to the
/// subscribers of the will topic, exactly once, before the session
/// terminates. An exit with will stands for a transport error, which takes
/// the client's subscriptions with it; one without will is an eviction, and
/// the subscriptions of a persistent session survive it for the session
/// that took the client id over. Only this session's own live registration
/// leaves the live list: a successor under the same id keeps its own.
pub fn handle_exit(broker: &mut Broker, session: &mut ServerSession, will: bool) -> (r: (
    ReturnKind,
    Vec<BrokerAction>,
))
    requires
        old(broker).wf(),
    ensures
        final(broker).wf(),
        spec_exit_obeys(
            *old(broker),
            *old(session),
            will,
            *final(broker),
            *final(session),
            r.0,
            actions_view(r.1@),
        ),
{
    let acts: Vec<BrokerAction> = if will && session.is_will_flag() {
        let content = PublishContent {
            from_client_id: session.client_id.clone(),
            topic: session.will_topic.clone(),
            qos: session.will_qos,
            retain: session.will_retain,
            dup: false,
            message_id: 0,
            payload: session.will_message.clone(),
        };
        fanout(&broker.subscript, &session.will_topic, &content)
    } else {
        Vec::new()
    };
    let keep_subs = !will && match session.clean_session {
        Some(c) => !c,
        None => false,
    };
    if !keep_subs {
        broker.subscript.exit(&session.client_id);
    }
    remove_live(&mut broker.live, &session.client_id, session.token);
    proof {
        lemma_live_filter_wf(
            live_view(old(broker).live@),
            |e: LiveView| !(e.client_id == old(session).client_id@ && e.token == old(
                session,
            ).token),
        );
    }
    session.terminate();
    (ReturnKind::Exit, acts)
}

/// What handling an exit order promises: the session ends, the will goes
/// out exactly when asked for and registered, a transport error or a
/// clean-session eviction clears the client's subscriptions while an evicted
/// persistent session keeps them, the in-flight store is untouched, and only
/// this session's own live registration leaves.
pub open spec fn spec_exit_obeys(
    pb: Broker,
    ps: ServerSession,
    will: bool,
    fb: Broker,
    fs: ServerSession,
    r0: ReturnKind,
    acts: Seq<ActionView>,
) -> bool {
    &&& r0 is Exit
    &&& fs.state == SessionState::Terminated
    &&& fs.client_id == ps.client_id
    &&& fb.container == pb.container
    &&& (will && ps.will_flag ==> acts == spec_fanout(
        pb.subscript@,
        ps.will_topic@,
        spec_will_content(ps),
    ))
    &&& (!(will && ps.will_flag) ==> acts.len() == 0)
    &&& (will || ps.clean_session != Some(false) ==> !fb.subscript.spec_has_client(ps.client_id@))
    &&& (!will && ps.clean_session == Some(false) ==> fb.subscript == pb.subscript)
    &&& fb.next_token == pb.next_token
    &&& live_view(fb.live@) == live_view(pb.live@).filter(
        |e: LiveView| !(e.client_id == ps.client_id@ && e.token == ps.token),
    )
}

/// The will message a session registered, as broadcast content.
pub open spec fn spec_will_content(s: ServerSession) -> ContentView {
    ContentView {
        from_client_id: s.client_id@,
        topic: s.will_topic@,
        qos: s.will_qos,
        retain: s.will_retain,
        dup: false,
        message_id: 0,
        payload: s.will_message@,
    }
}

/// Handles a broadcast that arrived from another handler. A QoS 2 content
/// is parked in this subscriber's in-flight table so the closing handshake
/// can find it. A message never echoes to its own publisher: when the
/// publisher is this session, nothing is written out.
pub fn handle_broadcast(
    broker: &mut Broker,
    session: &mut ServerSession,
    from: &Vec<u8>,
    content: PublishContent,
) -> (r: (ReturnKind, Vec<BrokerAction>))
    requires
        old(broker).wf(),
        spec_content_sizes(content@),
    ensures
        final(broker).wf(),
        final(broker).subscript == old(broker).subscript,
        final(broker).live == old(broker).live,
        final(broker).next_token == old(broker).next_token,
        *final(session) == *old(session),
        r.1@.len() == 0,
        from@ == old(session).client_id@ ==> r.0 is Continue,
        from@ != old(session).client_id@ ==> (r.0 matches ReturnKind::Response(b) && b@
            == spec_encode_publish(
            content@.dup,
            content@.qos,
            content@.retain,
            content@.topic,
            content@.message_id,
            content@.payload,
        )),
        content@.qos != MqttQos::Qos2 ==> final(broker).container == old(broker).container,
        content@.qos == MqttQos::Qos2 ==> final(broker).container@ == old(
            broker,
        ).container@.filter(
            |rv: RecordView| !spec_rec_key(rv, old(session).client_id@, content@.message_id),
        ).push(
            RecordView {
                client_id: old(session).client_id@,
                message_id: content@.message_id,
                frame: crate::container::FrameView {
                    from_id: from@,
                    to_id: old(session).client_id@,
                    bytes: spec_encode_publish(
                        content@.dup,
                        content@.qos,
                        content@.retain,
                        content@.topic,
                        content@.message_id,
                        content@.payload,
                    ),
                    message_id: content@.message_id,
                },
            },
        ),
{
    let outgoing = PublishMessage::new(
        content.qos,
        content.dup,
        content.retain,
        content.topic,
        content.message_id,
        content.payload,
    );
    if content.qos == MqttQos::Qos2 {
        let frame = MessageFrame::new(
            from.clone(),
            session.client_id.clone(),
            outgoing.bytes.clone(),
            content.message_id,
        );
        broker.container.append(&session.client_id, content.message_id, frame);
    }
    if bytes_eq(from, &session.client_id) {
        (ReturnKind::Continue, Vec::new())
    } else {
        (ReturnKind::Response(outgoing.bytes), Vec::new())
    }
}

/// Handles CONNECT. An unacceptable protocol name or level earns CONNACK
/// with the unacceptable-protocol code and ends the session; an empty
/// client id without a clean session earns the identifier-rejected code and
/// does the same. An accepted CONNECT establishes the session, declares the
/// client to the in-flight store, evicts an older live session with the
/// same id, and answers CONNACK accepted, with session-present exactly when
/// the session is persistent and old in-flight state survives.
pub fn handle_connect(broker: &mut Broker, session: &mut ServerSession, m: ConnectMessage) -> (r:
    (ReturnKind, Vec<BrokerAction>))
    requires
        old(broker).wf(),
        m.will_qos != MqttQos::Failure,
    ensures
        final(broker).wf(),
        spec_connect_obeys(
            *old(broker),
            *old(session),
            m.view_of(),
            m.protocol_level,
            *final(broker),
            *final(session),
            r.0,
            actions_view(r.1@),
        ),
{
    if !acceptable_protocol(&m.protocol_name, m.protocol_level) {
        let ack = ConnackMessage::new(false, ReasonCodeV3::UnacceptableProtocolVersion);
        session.terminate();
        return (ReturnKind::Response(ack.bytes), Vec::new());
    }
    if m.payload.client_id.len() == 0 && !m.clean_session {
        let ack = ConnackMessage::new(false, ReasonCodeV3::IdentifierRejected);
        session.terminate();
        return (ReturnKind::Response(ack.bytes), Vec::new());
    }
    let cid = m.payload.client_id.clone();
    let session_present = !m.clean_session && broker.container.has_client(&cid);
    let token = broker.next_token;
    if broker.next_token == u64::MAX {
        broker.next_token = 1;
    } else {
        broker.next_token = broker.next_token + 1;
    }
    let mut acts: Vec<BrokerAction> = Vec::new();
    if broker.is_live(&cid) {
        let evict_id = cid.clone();
        acts.push(BrokerAction::Evict(evict_id));
        proof {
            assert(actions_view(acts@) =~= seq![ActionView::Evict(m.payload.client_id@)]);
        }
    }
    let ghost live_pred = |e: LiveView| e.client_id != m.payload.client_id@;
    drop_live_cid(&mut broker.live, &cid);
    let ghost dropped = live_view(broker.live@);
    let registration = LiveEntry { client_id: cid.clone(), token };
    broker.live.push(registration);
    proof {
        lemma_live_filter_wf(live_view(old(broker).live@), live_pred);
        assert(live_view(broker.live@) =~= dropped.push(
            LiveView { client_id: m.payload.client_id@, token },
        ));
        let n = live_view(broker.live@).len() - 1;
        assert forall|i: int, j: int| 0 <= i < j < live_view(broker.live@).len() implies (
        #[trigger] live_view(broker.live@)[i]).client_id != (#[trigger] live_view(
            broker.live@,
        )[j]).client_id by {
            if j == n {
                assert(live_view(broker.live@)[i] == dropped[i]);
                live_view(old(broker).live@).lemma_filter_pred(live_pred, i);
            } else {
                assert(live_view(broker.live@)[i] == dropped[i] && live_view(broker.live@)[j]
                    == dropped[j]);
            }
        }
    }
    let will_topic = match &m.payload.will_topic {
        Some(t) => t.clone(),
        None => Vec::new(),
    };
    let will_message = match &m.payload.will_message {
        Some(t) => t.clone(),
        None => Vec::new(),
    };
    session.init_protocol(m.protocol_name, m.protocol_level);
    session.init(
        m.payload.client_id,
        m.will_flag,
        m.will_qos,
        m.will_retain,
        will_topic,
        will_message,
        m.keep_alive,
        m.clean_session,
        m.payload.user_name,
        m.payload.password,
    );
    session.token = token;
    broker.container.init(&cid);
    let ack = ConnackMessage::new(session_present, ReasonCodeV3::ConnectionAccepted);
    proof {
        let cv = m.view_of();
        assert(session.state == SessionState::Established);
        assert(session.client_id@ == cv.client_id);
        assert(spec_qos_byte(session.will_qos) == cv.will_qos);
        assert(session.token == old(broker).next_token);
        assert(ack.bytes@ == spec_encode_connack(
            !m.clean_session && old(broker).container.spec_has_client(m.payload.client_id@),
            spec_reason_byte(ReasonCodeV3::ConnectionAccepted),
        ));
        assert(old(broker).spec_is_live(m.payload.client_id@) ==> actions_view(acts@) == seq![
            ActionView::Evict(m.payload.client_id@),
        ]);
        assert(live_view(broker.live@) == live_view(old(broker).live@).filter(live_pred).push(
            LiveView { client_id: cv.client_id, token: old(broker).next_token },
        ));
    }
    (ReturnKind::Response(ack.bytes), acts)
}

/// What handling a CONNECT promises. An unacceptable protocol name or
/// level earns CONNACK with the unacceptable-protocol code and ends the
/// session; an empty client id without a clean session earns the
/// identifier-rejected code and does the same; neither touches the broker.
/// An accepted CONNECT establishes the session with every field the packet
/// carried and a fresh registration token, evicts the older live session
/// under the same id (the live list keeps exactly one registration per id,
/// now carrying the new token), and answers CONNACK accepted with
/// session-present exactly when the session is persistent and old in-flight
/// state survives.
pub open spec fn spec_connect_obeys(
    pb: Broker,
    ps: ServerSession,
    cv: ConnectView,
    lvl: MqttProtocolLevel,
    fb: Broker,
    fs: ServerSession,
    r0: ReturnKind,
    acts: Seq<ActionView>,
) -> bool {
    let acceptable = spec_acceptable_protocol(cv.protocol_name, lvl);
    let reject_id = cv.client_id.len() == 0 && !cv.clean_session;
    &&& (!acceptable ==> {
        &&& (r0 matches ReturnKind::Response(b) && b@ == spec_encode_connack(
            false,
            spec_reason_byte(ReasonCodeV3::UnacceptableProtocolVersion),
        ))
        &&& fs.state == SessionState::Terminated
        &&& acts.len() == 0
        &&& fb == pb
    })
    &&& (acceptable && reject_id ==> {
        &&& (r0 matches ReturnKind::Response(b) && b@ == spec_encode_connack(
            false,
            spec_reason_byte(ReasonCodeV3::IdentifierRejected),
        ))
        &&& fs.state == SessionState::Terminated
        &&& acts.len() == 0
        &&& fb == pb
    })
    &&& (acceptable && !reject_id ==> {
        &&& fs.state == SessionState::Established
        &&& fs.client_id@ == cv.client_id
        &&& fs.protocol_name@ == cv.protocol_name
        &&& fs.protocol_level == Some(lvl)
        &&& fs.clean_session == Some(cv.clean_session)
        &&& fs.will_flag == cv.will_flag
        &&& spec_qos_byte(fs.will_qos) == cv.will_qos
        &&& fs.will_retain == cv.will_retain
        &&& fs.will_topic@ == (match cv.will_topic {
            Some(t) => t,
            None => Seq::<u8>::empty(),
        })
        &&& fs.will_message@ == (match cv.will_message {
            Some(t) => t,
            None => Seq::<u8>::empty(),
        })
        &&& fs.keep_alive == cv.keep_alive
        &&& spec_opt_view(fs.user_name) == cv.user_name
        &&& spec_opt_view(fs.password) == cv.password
        &&& fs.token == pb.next_token
        &&& (r0 matches ReturnKind::Response(b) && b@ == spec_encode_connack(
            !cv.clean_session && pb.container.spec_has_client(cv.client_id),
            spec_reason_byte(ReasonCodeV3::ConnectionAccepted),
        ))
        &&& (pb.spec_is_live(cv.client_id) ==> acts == seq![ActionView::Evict(cv.client_id)])
        &&& (!pb.spec_is_live(cv.client_id) ==> acts.len() == 0)
        &&& live_view(fb.live@) == live_view(pb.live@).filter(
            |e: LiveView| e.client_id != cv.client_id,
        ).push(LiveView { client_id: cv.client_id, token: pb.next_token })
        &&& fb.subscript == pb.subscript
        &&& fb.container == pb.container
        &&& fb.next_token == (if pb.next_token == u64::MAX {
            1u64
        } else {
            (pb.next_token + 1) as u64
        })
    })
}

/// The connection closed with nothing written: what malformed input, a
/// non-CONNECT first packet, or a kind the server never receives earns.
pub open spec fn spec_closed_silently(
    pb: Broker,
    ps: ServerSession,
    fb: Broker,
    fs: ServerSession,
    r0: ReturnKind,
    acts: Seq<ActionView>,
) -> bool {
    &&& r0 is Exit
    &&& acts.len() == 0
    &&& fb == pb
    &&& fs.state == SessionState::Terminated
    &&& fs.client_id == ps.client_id
    &&& fs.clean_session == ps.clean_session
    &&& fs.token == ps.token
}

/// Nothing happened: no response, no actions, no state change.
pub open spec fn spec_continue_unchanged(
    pb: Broker,
    ps: ServerSession,
    fb: Broker,
    fs: ServerSession,
    r0: ReturnKind,
    acts: Seq<ActionView>,
) -> bool {
    &&& r0 is Continue
    &&& acts.len() == 0
    &&& fb == pb
    &&& fs == ps
}

/// These bytes went back, and nothing else happened.
pub open spec fn spec_responded_unchanged(
    pb: Broker,
    ps: ServerSession,
    bytes: Seq<u8>,
    fb: Broker,
    fs: ServerSession,
    r0: ReturnKind,
    acts: Seq<ActionView>,
) -> bool {
    &&& (r0 matches ReturnKind::Response(b) && b@ == bytes)
    &&& acts.len() == 0
    &&& fb == pb
    &&& fs == ps
}

/// What handling an inbound PUBLISH promises, per its QoS: QoS 0 fans out
/// with no acknowledgement, QoS 1 fans out and answers PUBACK, QoS 2 parks
/// the packet under (this client, identifier) and answers PUBREC with no
/// delivery yet.
pub open spec fn spec_publish_obeys(
    pb: Broker,
    ps: ServerSession,
    bv: crate::message::BaseView,
    topic: Seq<u8>,
    mid: u16,
    body: Seq<u8>,
    bytes: Seq<u8>,
    fb: Broker,
    fs: ServerSession,
    r0: ReturnKind,
    acts: Seq<ActionView>,
) -> bool {
    let content = ContentView {
        from_client_id: ps.client_id@,
        topic,
        qos: bv.qos,
        retain: bv.retain,
        dup: bv.dup,
        message_id: mid,
        payload: body,
    };
    &&& fb.subscript == pb.subscript
    &&& fb.live == pb.live
    &&& fb.next_token == pb.next_token
    &&& fs == ps
    &&& (bv.qos == MqttQos::Qos0 ==> r0 is Continue && acts == spec_fanout(
        pb.subscript@,
        topic,
        content,
    ) && fb.container == pb.container)
    &&& (bv.qos == MqttQos::Qos1 ==> (r0 matches ReturnKind::Response(b) && b@ == spec_encode_ack(
        TypeKind::PUBACK,
        mid,
    )) && acts == spec_fanout(pb.subscript@, topic, content) && fb.container == pb.container)
    &&& (bv.qos == MqttQos::Qos2 ==> (r0 matches ReturnKind::Response(b) && b@ == spec_encode_ack(
        TypeKind::PUBREC,
        mid,
    )) && acts.len() == 0 && fb.container@ == pb.container@.filter(
        |rv: RecordView| !spec_rec_key(rv, ps.client_id@, mid),
    ).push(
        RecordView {
            client_id: ps.client_id@,
            message_id: mid,
            frame: crate::container::FrameView {
                from_id: ps.client_id@,
                to_id: Seq::<u8>::empty(),
                bytes,
                message_id: mid,
            },
        },
    ))
}

/// What handling PUBREL promises: the in-flight entry for (this client,
/// identifier) leaves, PUBCOMP goes back, and the parked message fans out
/// now if one was awaiting delivery -- and never again after that.
pub open spec fn spec_pubrel_obeys(
    pb: Broker,
    ps: ServerSession,
    mid: u16,
    fb: Broker,
    fs: ServerSession,
    r0: ReturnKind,
    acts: Seq<ActionView>,
) -> bool {
    &&& fb.subscript == pb.subscript
    &&& fb.live == pb.live
    &&& fb.next_token == pb.next_token
    &&& fs == ps
    &&& fb.container@ == pb.container@.filter(
        |rv: RecordView| !spec_rec_key(rv, ps.client_id@, mid),
    )
    &&& (r0 matches ReturnKind::Response(b) && b@ == spec_encode_ack(TypeKind::PUBCOMP, mid))
    &&& (!pb.container.spec_contains(ps.client_id@, mid) ==> acts.len() == 0)
    &&& (pb.container.spec_contains(ps.client_id@, mid) ==> ({
        let f = pb.container.spec_entry(ps.client_id@, mid);
        if f.to_id == Seq::<u8>::empty() {
            match spec_rebuild(f) {
                Some(cv) => acts == spec_fanout(pb.subscript@, cv.topic, cv),
                None => acts.len() == 0,
            }
        } else {
            acts.len() == 0
        }
    }))
}

/// What handling PUBCOMP promises: the in-flight entry for (this client,
/// identifier) leaves and nothing goes out.
pub open spec fn spec_pubcomp_obeys(
    pb: Broker,
    ps: ServerSession,
    mid: u16,
    fb: Broker,
    fs: ServerSession,
    r0: ReturnKind,
    acts: Seq<ActionView>,
) -> bool {
    &&& fb.subscript == pb.subscript
    &&& fb.live == pb.live
    &&& fb.next_token == pb.next_token
    &&& fs == ps
    &&& fb.container@ == pb.container@.filter(
        |rv: RecordView| !spec_rec_key(rv, ps.client_id@, mid),
    )
    &&& r0 is Continue
    &&& acts.len() == 0
}

/// What handling a SUBSCRIBE batch promises: the registry folds in the
/// valid grants in order, one SUBACK answers with one return code per
/// requested pair in order, and nothing else moves.
pub open spec fn spec_subscribe_obeys(
    pb: Broker,
    ps: ServerSession,
    mid: u16,
    subs: Seq<SubscribeMessage>,
    fb: Broker,
    fs: ServerSession,
    r0: ReturnKind,
    acts: Seq<ActionView>,
) -> bool {
    &&& fb.container == pb.container
    &&& fb.live == pb.live
    &&& fb.next_token == pb.next_token
    &&& fs == ps
    &&& acts.len() == 0
    &&& fb.subscript@ == spec_subscribe_fold(pb.subscript@, subs, ps.client_id@, 0)
    &&& (subs.len() == 0 ==> r0 is Continue)
    &&& (subs.len() > 0 ==> (r0 matches ReturnKind::Response(b) && b@ == spec_encode_suback(
        mid,
        Seq::new(subs.len(), |i: int| spec_grant_code(subs[i].topic@, subs[i].qos)),
    )))
}

/// What handling UNSUBSCRIBE promises: the (filter, client) entry leaves
/// and UNSUBACK answers with the same identifier.
pub open spec fn spec_unsubscribe_obeys(
    pb: Broker,
    ps: ServerSession,
    mid: u16,
    topic: Seq<u8>,
    fb: Broker,
    fs: ServerSession,
    r0: ReturnKind,
    acts: Seq<ActionView>,
) -> bool {
    &&& fb.container == pb.container
    &&& fb.live == pb.live
    &&& fb.next_token == pb.next_token
    &&& fs == ps
    &&& acts.len() == 0
    &&& (r0 matches ReturnKind::Response(b) && b@ == spec_encode_ack(TypeKind::UNSUBACK, mid))
    &&& fb.subscript@ == pb.subscript@.filter(
        |e: SubView| !spec_sub_key(e, topic, ps.client_id@),
    )
}

/// What handling DISCONNECT promises: the will stays quiet, the client's
/// subscriptions and live registration leave, a clean session's in-flight
/// table leaves too, and the connection closes with nothing written.
pub open spec fn spec_disconnect_obeys(
    pb: Broker,
    ps: ServerSession,
    fb: Broker,
    fs: ServerSession,
    r0: ReturnKind,
    acts: Seq<ActionView>,
) -> bool {
    &&& r0 is Exit
    &&& acts.len() == 0
    &&& fs.state == SessionState::Terminated
    &&& fs.client_id == ps.client_id
    &&& !fb.subscript.spec_has_client(ps.client_id@)
    &&& (ps.clean_session == Some(true) ==> !fb.container.spec_has_client(ps.client_id@))
    &&& (ps.clean_session != Some(true) ==> fb.container == pb.container)
    &&& live_view(fb.live@) == live_view(pb.live@).filter(
        |e: LiveView| !(e.client_id == ps.client_id@ && e.token == ps.token),
    )
}

/// What handling a routed broadcast promises: a QoS 2 content is parked
/// under (this client, identifier) for the closing handshake, the encoded
/// PUBLISH goes out unless the publisher is this session, and nothing else
/// moves.
pub open spec fn spec_broadcast_obeys(
    pb: Broker,
    ps: ServerSession,
    from: Seq<u8>,
    c: ContentView,
    fb: Broker,
    fs: ServerSession,
    r0: ReturnKind,
    acts: Seq<ActionView>,
) -> bool {
    &&& fb.subscript == pb.subscript
    &&& fb.live == pb.live
    &&& fb.next_token == pb.next_token
    &&& fs == ps
    &&& acts.len() == 0
    &&& (from == ps.client_id@ ==> r0 is Continue)
    &&& (from != ps.client_id@ ==> (r0 matches ReturnKind::Response(b) && b@
        == spec_encode_publish(c.dup, c.qos, c.retain, c.topic, c.message_id, c.payload)))
    &&& (c.qos != MqttQos::Qos2 ==> fb.container == pb.container)
    &&& (c.qos == MqttQos::Qos2 ==> fb.container@ == pb.container@.filter(
        |rv: RecordView| !spec_rec_key(rv, ps.client_id@, c.message_id),
    ).push(
        RecordView {
            client_id: ps.client_id@,
            message_id: c.message_id,
            frame: crate::container::FrameView {
                from_id: from,
                to_id: ps.client_id@,
                bytes: spec_encode_publish(c.dup, c.qos, c.retain, c.topic, c.message_id, c.payload),
                message_id: c.message_id,
            },
        },
    ))
}

/// What one InputEvent promises, over the parse of its bytes: undecodable
/// bytes, a non-CONNECT first packet, and server-to-client kinds close the
/// connection silently; a CONNECT whose level byte is not a v3 level earns
/// CONNACK with the unacceptable-protocol code; every decodable packet is
/// handled as its handler promises.
pub open spec fn spec_input_obeys(
    pb: Broker,
    ps: ServerSession,
    data: Seq<u8>,
    fb: Broker,
    fs: ServerSession,
    r0: ReturnKind,
    acts: Seq<ActionView>,
) -> bool {
    match crate::message::spec_parse_base(data) {
        Err(_) => spec_closed_silently(pb, ps, fb, fs, r0, acts),
        Ok(bv) => if bv.kind == TypeKind::CONNECT {
            match crate::connect::spec_parse_connect(data) {
                None => spec_closed_silently(pb, ps, fb, fs, r0, acts),
                Some(cv) => match crate::protocol::spec_level_of_byte(cv.protocol_level) {
                    None => {
                        &&& (r0 matches ReturnKind::Response(b) && b@ == spec_encode_connack(
                            false,
                            spec_reason_byte(ReasonCodeV3::UnacceptableProtocolVersion),
                        ))
                        &&& acts.len() == 0
                        &&& fb == pb
                        &&& fs.state == SessionState::Terminated
                    },
                    Some(lvl) => spec_connect_obeys(pb, ps, cv, lvl, fb, fs, r0, acts),
                },
            }
        } else if ps.state == SessionState::Uninitialized {
            spec_closed_silently(pb, ps, fb, fs, r0, acts)
        } else {
            match bv.kind {
                TypeKind::PUBLISH => match crate::message::spec_parse_publish(data, bv.qos) {
                    None => spec_closed_silently(pb, ps, fb, fs, r0, acts),
                    Some((topic, mid, body)) => spec_publish_obeys(
                        pb,
                        ps,
                        bv,
                        topic,
                        mid,
                        body,
                        data,
                        fb,
                        fs,
                        r0,
                        acts,
                    ),
                },
                TypeKind::PUBACK => match crate::message::spec_parse_mid(data) {
                    None => spec_closed_silently(pb, ps, fb, fs, r0, acts),
                    Some(_) => spec_continue_unchanged(pb, ps, fb, fs, r0, acts),
                },
                TypeKind::PUBREC => match crate::message::spec_parse_mid(data) {
                    None => spec_closed_silently(pb, ps, fb, fs, r0, acts),
                    Some(mid) => spec_responded_unchanged(
                        pb,
                        ps,
                        spec_encode_ack(TypeKind::PUBREL, mid),
                        fb,
                        fs,
                        r0,
                        acts,
                    ),
                },
                TypeKind::PUBREL => match crate::message::spec_parse_mid(data) {
                    None => spec_closed_silently(pb, ps, fb, fs, r0, acts),
                    Some(mid) => spec_pubrel_obeys(pb, ps, mid, fb, fs, r0, acts),
                },
                TypeKind::PUBCOMP => match crate::message::spec_parse_mid(data) {
                    None => spec_closed_silently(pb, ps, fb, fs, r0, acts),
                    Some(mid) => spec_pubcomp_obeys(pb, ps, mid, fb, fs, r0, acts),
                },
                TypeKind::SUBSCRIBE => match crate::message::spec_parse_subscribe(data) {
                    None => spec_closed_silently(pb, ps, fb, fs, r0, acts),
                    Some((mid, pairs)) => exists|subs: Seq<SubscribeMessage>|
                        #[trigger] spec_subscribe_obeys(pb, ps, mid, subs, fb, fs, r0, acts)
                            && subs.len() == pairs.len() && (forall|i: int|
                            0 <= i < subs.len() ==> (#[trigger] subs[i]).message_id == mid && (
                            subs[i].topic@, spec_qos_byte(subs[i].qos)) == pairs[i]),
                },
                TypeKind::UNSUBSCRIBE => match crate::message::spec_parse_unsubscribe(data) {
                    None => spec_closed_silently(pb, ps, fb, fs, r0, acts),
                    Some((mid, topic)) => spec_unsubscribe_obeys(
                        pb,
                        ps,
                        mid,
                        topic,
                        fb,
                        fs,
                        r0,
                        acts,
                    ),
                },
                TypeKind::UNSUBACK => match crate::message::spec_parse_mid(data) {
                    None => spec_closed_silently(pb, ps, fb, fs, r0, acts),
                    Some(_) => spec_continue_unchanged(pb, ps, fb, fs, r0, acts),
                },
                TypeKind::CONNACK => match crate::message::spec_parse_connack(data) {
                    None => spec_closed_silently(pb, ps, fb, fs, r0, acts),
                    Some(_) => spec_continue_unchanged(pb, ps, fb, fs, r0, acts),
                },
                TypeKind::PINGREQ => spec_responded_unchanged(
                    pb,
                    ps,
                    crate::message::spec_encode_simple(TypeKind::PINGRESP),
                    fb,
                    fs,
                    r0,
                    acts,
                ),
                TypeKind::DISCONNECT => spec_disconnect_obeys(pb, ps, fb, fs, r0, acts),
                _ => spec_closed_silently(pb, ps, fb, fs, r0, acts),
            }
        },
    }
}

/// Handles one event, as the original event loop does: decode input bytes
/// and dispatch on the packet; route a broadcast; obey an exit order;
/// forward pre-encoded output. A session whose first packet is not CONNECT
/// terminates with nothing written. Undecodable bytes close the connection.
#[verifier::rlimit(100)]
#[verifier::spinoff_prover]
pub fn execute(broker: &mut Broker, session: &mut ServerSession, event: HandleEvent) -> (r: (
    ReturnKind,
    Vec<BrokerAction>,
))
    requires
        old(broker).wf(),
    ensures
        final(broker).wf(),
        match event {
            HandleEvent::OutputEvent(data) => spec_responded_unchanged(
                *old(broker),
                *old(session),
                data@,
                *final(broker),
                *final(session),
                r.0,
                actions_view(r.1@),
            ),
            HandleEvent::ExitEvent(will) => spec_exit_obeys(
                *old(broker),
                *old(session),
                will,
                *final(broker),
                *final(session),
                r.0,
                actions_view(r.1@),
            ),
            HandleEvent::BroadcastEvent(from, c) => if spec_content_sizes(c@) {
                spec_broadcast_obeys(
                    *old(broker),
                    *old(session),
                    from@,
                    c@,
                    *final(broker),
                    *final(session),
                    r.0,
                    actions_view(r.1@),
                )
            } else {
                spec_continue_unchanged(
                    *old(broker),
                    *old(session),
                    *final(broker),
                    *final(session),
                    r.0,
                    actions_view(r.1@),
                )
            },
            HandleEvent::InputEvent(data) => spec_input_obeys(
                *old(broker),
                *old(session),
                data@,
                *final(broker),
                *final(session),
                r.0,
                actions_view(r.1@),
            ),
        },
{
    match event {
        HandleEvent::OutputEvent(data) => (ReturnKind::Response(data), Vec::new()),
        HandleEvent::ExitEvent(will) => handle_exit(broker, session, will),
        HandleEvent::BroadcastEvent(from, content) => {
            if content.topic.len() > 0xFFFF || content.payload.len()
                > (MAX_REMAINING_LENGTH as usize) - 4 - content.topic.len() || content.qos
                == MqttQos::Failure {
                return (ReturnKind::Continue, Vec::new());
            }
            handle_broadcast(broker, session, &from, content)
        },
        HandleEvent::InputEvent(data) => {
            let base = match BaseMessage::decode(data) {
                Ok(b) => b,
                Err(_) => {
                    session.terminate();
                    return (ReturnKind::Exit, Vec::new());
                },
            };
            if base.msg_type == TypeKind::CONNECT {
                return match ConnectMessage::decode(&base) {
                    Ok(m) => handle_connect(broker, session, m),
                    Err(e) => {
                        if e == DecodeError::UnacceptableLevel {
                            let ack = ConnackMessage::new(
                                false,
                                ReasonCodeV3::UnacceptableProtocolVersion,
                            );
                            session.terminate();
                            (ReturnKind::Response(ack.bytes), Vec::new())
                        } else {
                            session.terminate();
                            (ReturnKind::Exit, Vec::new())
                        }
                    },
                };
            }
            if session.state == SessionState::Uninitialized {
                session.terminate();
                return (ReturnKind::Exit, Vec::new());
            }
            let ghost s = base.bytes@;
            let ghost bwf = base.wf();
            let kind = match MqttMessageKind::v3(base) {
                Some(k) => k,
                None => {
                    session.terminate();
                    return (ReturnKind::Exit, Vec::new());
                },
            };
            match kind {
                MqttMessageKind::RequestV3(v3) => match v3 {
                    MqttMessageV3::Publish(m) => handle_publish(broker, session, &m),
                    MqttMessageV3::Puback(m) => handle_puback(m.message_id),
                    MqttMessageV3::Pubrec(m) => handle_pubrec(m.message_id),
                    MqttMessageV3::Pubrel(m) => handle_pubrel(broker, session, m.message_id),
                    MqttMessageV3::Pubcomp(m) => handle_pubcomp(broker, session, m.message_id),
                    MqttMessageV3::Unsubscribe(m) => handle_unsubscribe(broker, session, &m),
                    MqttMessageV3::Disconnect(_) => handle_disconnect(broker, session),
                    MqttMessageV3::Pingresp(m) => (ReturnKind::Response(m.bytes), Vec::new()),
                    MqttMessageV3::Unsuback(_) => (ReturnKind::Continue, Vec::new()),
                    MqttMessageV3::Connack(_) => (ReturnKind::Continue, Vec::new()),
                    _ => {
                        proof {
                            assert(false);
                        }
                        (ReturnKind::Continue, Vec::new())
                    },
                },
                MqttMessageKind::RequestsV3(subs) => {
                    let mut plain: Vec<SubscribeMessage> = Vec::new();
                    let mut rest = subs;
                    let ghost items = rest@;
                    let ghost pairs = (crate::message::spec_parse_subscribe(s)->0).1;
                    let ghost mid0 = (crate::message::spec_parse_subscribe(s)->0).0;
                    while rest.len() > 0
                        invariant
                            plain@.len() + rest@.len() == items.len(),
                            rest@ == items.skip(plain@.len() as int),
                            forall|i: int|
                                0 <= i < items.len() ==> crate::message::spec_sub_item(
                                    #[trigger] items[i],
                                    mid0,
                                    pairs[i],
                                ),
                            forall|j: int|
                                0 <= j < plain@.len() ==> items[j] == MqttMessageV3::Subscribe(
                                    #[trigger] plain@[j],
                                ),
                        decreases rest@.len(),
                    {
                        let ghost k = plain@.len() as int;
                        let item = rest.remove(0);
                        proof {
                            assert(items.skip(k)[0] == items[k]);
                            assert(items.skip(k).remove(0) =~= items.skip(k + 1));
                            assert(crate::message::spec_sub_item(items[k], mid0, pairs[k]));
                        }
                        match item {
                            MqttMessageV3::Subscribe(sm) => {
                                plain.push(sm);
                            },
                            _ => {
                                proof {
                                    assert(false);
                                }
                            },
                        }
                    }
                    proof {
                        crate::message::lemma_sub_pairs_bound(
                            s,
                            crate::message::spec_var_start(s) + 2,
                        );
                        let rlp = crate::codec::spec_rl_parse(s, 1);
                        crate::codec::lemma_rl_parse_bounds(s, 1, (rlp->0).0, (rlp->0).1);
                        assert forall|i: int| 0 <= i < plain@.len() implies (
                        #[trigger] plain@[i]).message_id == mid0 && (plain@[i].topic@,
                        spec_qos_byte(plain@[i].qos)) == pairs[i] by {
                            assert(crate::message::spec_sub_item(items[i], mid0, pairs[i]));
                            assert(items[i] == MqttMessageV3::Subscribe(plain@[i]));
                        }
                    }
                    let res = handle_subscribe(broker, session, &plain);
                    proof {
                        assert(spec_subscribe_obeys(
                            *old(broker),
                            *old(session),
                            mid0,
                            plain@,
                            *broker,
                            *session,
                            res.0,
                            actions_view(res.1@),
                        ));
                    }
                    res
                },
                _ => {
                    proof {
                        assert(false);
                    }
                    (ReturnKind::Continue, Vec::new())
                },
            }
        },
    }
}

} // verus!
