//! The subscription registry: which client subscribed to which topic
//! filter at which granted QoS, and the fan-out computation that finds, in
//! registration order, every subscriber whose filter matches a published
//! topic. At most one entry exists per (filter, client) pair; subscribing
//! again replaces the granted QoS.

use vstd::prelude::*;
use crate::protocol::MqttQos;
use crate::topic::{spec_topic_match, topic_matches, bytes_eq};

verus! {

/// One subscription: the filter, the subscriber, and the granted QoS.
#[derive(Clone, Debug)]
pub struct SubscriptionEntry {
    pub topic_filter: Vec<u8>,
    pub client_id: Vec<u8>,
    pub qos: MqttQos,
}

/// Spec-level view of a subscription.
pub struct SubView {
    pub topic_filter: Seq<u8>,
    pub client_id: Seq<u8>,
    pub qos: MqttQos,
}

impl View for SubscriptionEntry {
    type V = SubView;

    open spec fn view(&self) -> SubView {
        SubView {
            topic_filter: self.topic_filter@,
            client_id: self.client_id@,
            qos: self.qos,
        }
    }
}

/// The entry is for the given (filter, client) pair.
pub open spec fn spec_sub_key(e: SubView, filter: Seq<u8>, cid: Seq<u8>) -> bool {
    e.topic_filter == filter && e.client_id == cid
}

/// The process-wide filter-to-subscribers registry.
pub struct TopicSubscript {
    entries: Vec<SubscriptionEntry>,
}

impl View for TopicSubscript {
    type V = Seq<SubView>;

    closed spec fn view(&self) -> Seq<SubView> {
        self.entries@.map_values(|e: SubscriptionEntry| e@)
    }
}

impl TopicSubscript {
    /// At most one entry per (filter, client) pair.
    pub open spec fn wf(self) -> bool {
        forall|i: int, j: int|
            0 <= i < j < self@.len() ==> !(#[trigger] self@[i].topic_filter == #[trigger] self@[
                j
            ].topic_filter && self@[i].client_id == self@[j].client_id)
    }

    /// The client is subscribed to exactly this filter.
    pub open spec fn spec_is_subscribed(self, filter: Seq<u8>, cid: Seq<u8>) -> bool {
        exists|i: int| 0 <= i < self@.len() && spec_sub_key(#[trigger] self@[i], filter, cid)
    }

    /// Some client is subscribed to exactly this filter.
    pub open spec fn spec_contains(self, filter: Seq<u8>) -> bool {
        exists|i: int| 0 <= i < self@.len() && (#[trigger] self@[i]).topic_filter == filter
    }

    /// Some entry mentions this client.
    pub open spec fn spec_has_client(self, cid: Seq<u8>) -> bool {
        exists|i: int| 0 <= i < self@.len() && (#[trigger] self@[i]).client_id == cid
    }

    /// An empty registry.
    pub fn new() -> (r: Self)
        ensures
            r@ == Seq::<SubView>::empty(),
            r.wf(),
    {
        let r = TopicSubscript { entries: Vec::new() };
        proof {
            assert(r@ =~= Seq::<SubView>::empty());
        }
        r
    }

    /// Removes any entry for the (filter, client) pair, keeping everything
    /// else in order.
    fn drop_pair(&mut self, topic_filter: &Vec<u8>, client_id: &Vec<u8>)
        requires
            old(self).wf(),
        ensures
            final(self).wf(),
            final(self)@ == old(self)@.filter(
                |e: SubView| !spec_sub_key(e, topic_filter@, client_id@),
            ),
            !final(self).spec_is_subscribed(topic_filter@, client_id@),
    {
        let ghost orig = self@;
        let ghost pred = |e: SubView| !spec_sub_key(e, topic_filter@, client_id@);
        let mut k: usize = 0;
        let mut jj: Ghost<int> = Ghost(0);
        proof {
            reveal(Seq::filter);
            assert(orig.subrange(0, 0).filter(pred) =~= Seq::<SubView>::empty());
            assert(self@ =~= orig.subrange(0, 0).filter(pred) + orig.skip(0));
        }
        while k < self.entries.len()
            invariant
                old(self).wf(),
                orig == old(self)@,
                pred == (|e: SubView| !spec_sub_key(e, topic_filter@, client_id@)),
                0 <= jj@ <= orig.len(),
                self@ == orig.subrange(0, jj@).filter(pred) + orig.skip(jj@),
                k == orig.subrange(0, jj@).filter(pred).len(),
                k <= self@.len(),
            decreases orig.len() - jj@,
        {
            let ghost j = jj@;
            proof {
                assert(orig.skip(j)[0] == orig[j]);
                assert(self@[k as int] == orig[j]);
                reveal(Seq::filter);
                assert(orig.subrange(0, j + 1).drop_last() =~= orig.subrange(0, j));
                assert(orig.subrange(0, j + 1).last() == orig[j]);
            }
            if bytes_eq(&self.entries[k].topic_filter, topic_filter) && bytes_eq(
                &self.entries[k].client_id,
                client_id,
            ) {
                let _ = self.entries.remove(k);
                proof {
                    assert(orig.subrange(0, j + 1).filter(pred) =~= orig.subrange(0, j).filter(
                        pred,
                    ));
                    assert(self@ =~= orig.subrange(0, j + 1).filter(pred) + orig.skip(j + 1)) by {
                        assert(self@ =~= (orig.subrange(0, j).filter(pred) + orig.skip(
                            j,
                        )).remove(k as int));
                        assert((orig.subrange(0, j).filter(pred) + orig.skip(j)).remove(k as int)
                            =~= orig.subrange(0, j).filter(pred) + orig.skip(j + 1));
                    }
                }
            } else {
                k = k + 1;
                proof {
                    assert(orig.subrange(0, j + 1).filter(pred) =~= orig.subrange(0, j).filter(
                        pred,
                    ).push(orig[j]));
                    assert(self@ =~= orig.subrange(0, j + 1).filter(pred) + orig.skip(j + 1));
                }
            }
            proof {
                jj@ = j + 1;
            }
        }
        proof {
            assert(orig.skip(jj@) =~= Seq::<SubView>::empty()) by {
                assert(self@.len() == orig.subrange(0, jj@).filter(pred).len() + orig.skip(
                    jj@,
                ).len());
            }
            assert(jj@ == orig.len());
            assert(orig.subrange(0, jj@) =~= orig);
            assert(self@ =~= orig.filter(pred));
            lemma_sub_filter_wf(orig, pred);
            assert forall|i: int| 0 <= i < self@.len() implies !spec_sub_key(
                #[trigger] self@[i],
                topic_filter@,
                client_id@,
            ) by {
                orig.lemma_filter_pred(pred, i);
            }
        }
    }

    /// Registers the client under the filter with the granted QoS. A second
    /// subscription by the same client to the same filter replaces the
    /// granted QoS.
    pub fn subscribe(&mut self, topic_filter: Vec<u8>, client_id: Vec<u8>, qos: MqttQos)
        requires
            old(self).wf(),
        ensures
            final(self).wf(),
            final(self)@ == old(self)@.filter(
                |e: SubView| !spec_sub_key(e, topic_filter@, client_id@),
            ).push(SubView { topic_filter: topic_filter@, client_id: client_id@, qos }),
            final(self).spec_is_subscribed(topic_filter@, client_id@),
    {
        self.drop_pair(&topic_filter, &client_id);
        let ghost mid_view = self@;
        self.entries.push(SubscriptionEntry { topic_filter, client_id, qos });
        proof {
            let rv = SubView { topic_filter: topic_filter@, client_id: client_id@, qos };
            assert(self@ =~= mid_view.push(rv));
            let n = self@.len() - 1;
            assert(spec_sub_key(self@[n], topic_filter@, client_id@));
            let pred = |e: SubView| !spec_sub_key(e, topic_filter@, client_id@);
            assert(final(self).wf()) by {
                lemma_sub_filter_wf(old(self)@, pred);
                assert forall|i: int, j: int| 0 <= i < j < self@.len() implies !(
                #[trigger] self@[i].topic_filter == #[trigger] self@[j].topic_filter && self@[
                    i
                ].client_id == self@[j].client_id) by {
                    if j == n {
                        assert(mid_view[i] == self@[i]);
                        old(self)@.lemma_filter_pred(pred, i);
                    } else {
                        assert(self@[i] == mid_view[i] && self@[j] == mid_view[j]);
                    }
                }
            }
        }
    }

    /// Removes the (filter, client) subscription; absence is no error.
    pub fn unsubscribe(&mut self, topic_filter: &Vec<u8>, client_id: &Vec<u8>)
        requires
            old(self).wf(),
        ensures
            final(self).wf(),
            final(self)@ == old(self)@.filter(
                |e: SubView| !spec_sub_key(e, topic_filter@, client_id@),
            ),
            !final(self).spec_is_subscribed(topic_filter@, client_id@),
    {
        self.drop_pair(topic_filter, client_id);
    }

    /// The client is subscribed to exactly this filter.
    pub fn is_subscribed(&self, topic_filter: &Vec<u8>, client_id: &Vec<u8>) -> (r: bool)
        ensures
            r == self.spec_is_subscribed(topic_filter@, client_id@),
    {
        let n = self.entries.len();
        let mut k: usize = 0;
        while k < n
            invariant
                n == self@.len(),
                k <= n,
                forall|i: int|
                    0 <= i < k ==> !spec_sub_key(#[trigger] self@[i], topic_filter@, client_id@),
            decreases n - k,
        {
            if bytes_eq(&self.entries[k].topic_filter, topic_filter) && bytes_eq(
                &self.entries[k].client_id,
                client_id,
            ) {
                proof {
                    assert(spec_sub_key(self@[k as int], topic_filter@, client_id@));
                }
                return true;
            }
            k = k + 1;
        }
        false
    }

    /// Some client is subscribed to exactly this filter.
    pub fn contains(&self, topic_filter: &Vec<u8>) -> (r: bool)
        ensures
            r == self.spec_contains(topic_filter@),
    {
        let n = self.entries.len();
        let mut k: usize = 0;
        while k < n
            invariant
                n == self@.len(),
                k <= n,
                forall|i: int| 0 <= i < k ==> (#[trigger] self@[i]).topic_filter != topic_filter@,
            decreases n - k,
        {
            if bytes_eq(&self.entries[k].topic_filter, topic_filter) {
                proof {
                    assert((self@[k as int]).topic_filter == topic_filter@);
                }
                return true;
            }
            k = k + 1;
        }
        false
    }

    /// Removes every subscription this client holds: what DISCONNECT and
    /// transport loss ask for.
    pub fn exit(&mut self, client_id: &Vec<u8>)
        requires
            old(self).wf(),
        ensures
            final(self).wf(),
            final(self)@ == old(self)@.filter(|e: SubView| e.client_id != client_id@),
            !final(self).spec_has_client(client_id@),
    {
        let ghost orig = self@;
        let ghost pred = |e: SubView| e.client_id != client_id@;
        let mut k: usize = 0;
        let mut jj: Ghost<int> = Ghost(0);
        proof {
            reveal(Seq::filter);
            assert(orig.subrange(0, 0).filter(pred) =~= Seq::<SubView>::empty());
            assert(self@ =~= orig.subrange(0, 0).filter(pred) + orig.skip(0));
        }
        while k < self.entries.len()
            invariant
                old(self).wf(),
                orig == old(self)@,
                pred == (|e: SubView| e.client_id != client_id@),
                0 <= jj@ <= orig.len(),
                self@ == orig.subrange(0, jj@).filter(pred) + orig.skip(jj@),
                k == orig.subrange(0, jj@).filter(pred).len(),
                k <= self@.len(),
            decreases orig.len() - jj@,
        {
            let ghost j = jj@;
            proof {
                assert(orig.skip(j)[0] == orig[j]);
                assert(self@[k as int] == orig[j]);
                reveal(Seq::filter);
                assert(orig.subrange(0, j + 1).drop_last() =~= orig.subrange(0, j));
                assert(orig.subrange(0, j + 1).last() == orig[j]);
            }
            if bytes_eq(&self.entries[k].client_id, client_id) {
                let _ = self.entries.remove(k);
                proof {
                    assert(orig.subrange(0, j + 1).filter(pred) =~= orig.subrange(0, j).filter(
                        pred,
                    ));
                    assert(self@ =~= orig.subrange(0, j + 1).filter(pred) + orig.skip(j + 1)) by {
                        assert(self@ =~= (orig.subrange(0, j).filter(pred) + orig.skip(
                            j,
                        )).remove(k as int));
                        assert((orig.subrange(0, j).filter(pred) + orig.skip(j)).remove(k as int)
                            =~= orig.subrange(0, j).filter(pred) + orig.skip(j + 1));
                    }
                }
            } else {
                k = k + 1;
                proof {
                    assert(orig.subrange(0, j + 1).filter(pred) =~= orig.subrange(0, j).filter(
                        pred,
                    ).push(orig[j]));
                    assert(self@ =~= orig.subrange(0, j + 1).filter(pred) + orig.skip(j + 1));
                }
            }
            proof {
                jj@ = j + 1;
            }
        }
        proof {
            assert(orig.skip(jj@) =~= Seq::<SubView>::empty()) by {
                assert(self@.len() == orig.subrange(0, jj@).filter(pred).len() + orig.skip(
                    jj@,
                ).len());
            }
            assert(jj@ == orig.len());
            assert(orig.subrange(0, jj@) =~= orig);
            assert(self@ =~= orig.filter(pred));
            lemma_sub_filter_wf(orig, pred);
            assert forall|i: int| 0 <= i < self@.len() implies (#[trigger] self@[i]).client_id
                != client_id@ by {
                orig.lemma_filter_pred(pred, i);
            }
        }
    }

    /// The subscribers whose filter matches the topic, as (client id,
    /// granted QoS) pairs in registration order: the fan-out of one
    /// broadcast.
    pub fn matching_subscribers(&self, topic: &Vec<u8>) -> (r: Vec<(Vec<u8>, MqttQos)>)
        ensures
            r@.map_values(|p: (Vec<u8>, MqttQos)| (p.0@, p.1)) == self@.filter(
                |e: SubView| spec_topic_match(e.topic_filter, topic@),
            ).map_values(|e: SubView| (e.client_id, e.qos)),
    {
        let ghost pred = |e: SubView| spec_topic_match(e.topic_filter, topic@);
        let ghost f = |e: SubView| (e.client_id, e.qos);
        let ghost pv = |p: (Vec<u8>, MqttQos)| (p.0@, p.1);
        let n = self.entries.len();
        let mut out: Vec<(Vec<u8>, MqttQos)> = Vec::new();
        let mut k: usize = 0;
        proof {
            reveal(Seq::filter);
            assert(self@.subrange(0, 0).filter(pred) =~= Seq::<SubView>::empty());
            assert(out@.map_values(pv) =~= self@.subrange(0, 0).filter(pred).map_values(f));
        }
        while k < n
            invariant
                n == self@.len(),
                k <= n,
                pred == (|e: SubView| spec_topic_match(e.topic_filter, topic@)),
                f == (|e: SubView| (e.client_id, e.qos)),
                pv == (|p: (Vec<u8>, MqttQos)| (p.0@, p.1)),
                out@.map_values(pv) == self@.subrange(0, k as int).filter(pred).map_values(f),
            decreases n - k,
        {
            proof {
                reveal(Seq::filter);
                assert(self@.subrange(0, k + 1).drop_last() =~= self@.subrange(0, k as int));
                assert(self@.subrange(0, k + 1).last() == self@[k as int]);
            }
            if topic_matches(&self.entries[k].topic_filter, topic) {
                let cid = self.entries[k].client_id.clone();
                let q = self.entries[k].qos;
                let ghost prev = out@;
                out.push((cid, q));
                proof {
                    let e = self@[k as int];
                    assert(pred(e));
                    assert(self@.subrange(0, k + 1).filter(pred) =~= self@.subrange(
                        0,
                        k as int,
                    ).filter(pred).push(e));
                    let p = out@[out@.len() - 1];
                    assert(out@ =~= prev.push(p));
                    assert(pv(p) == f(e));
                    assert(out@.map_values(pv) =~= prev.map_values(pv).push(pv(p)));
                    assert(self@.subrange(0, k + 1).filter(pred).map_values(f) =~= self@.subrange(
                        0,
                        k as int,
                    ).filter(pred).map_values(f).push(f(e)));
                    assert(out@.map_values(pv) =~= self@.subrange(0, k + 1).filter(
                        pred,
                    ).map_values(f));
                }
            } else {
                proof {
                    assert(out@.map_values(pv) =~= self@.subrange(0, k + 1).filter(
                        pred,
                    ).map_values(f));
                }
            }
            k = k + 1;
        }
        proof {
            assert(self@.subrange(0, n as int) =~= self@);
        }
        out
    }
}

/// Filtering keeps the pairwise-distinct (filter, client) pairs distinct.
pub proof fn lemma_sub_filter_wf(s: Seq<SubView>, pred: spec_fn(SubView) -> bool)
    requires
        forall|i: int, j: int|
            0 <= i < j < s.len() ==> !(#[trigger] s[i].topic_filter == #[trigger] s[
                j
            ].topic_filter && s[i].client_id == s[j].client_id),
    ensures
        forall|i: int, j: int|
            0 <= i < j < s.filter(pred).len() ==> !(#[trigger] s.filter(pred)[i].topic_filter
                == #[trigger] s.filter(pred)[j].topic_filter && s.filter(pred)[i].client_id
                == s.filter(pred)[j].client_id),
    decreases s.len(),
{
    reveal(Seq::filter);
    if s.len() > 0 {
        lemma_sub_filter_wf(s.drop_last(), pred);
        let f = s.filter(pred);
        let fd = s.drop_last().filter(pred);
        assert forall|i: int, j: int| 0 <= i < j < f.len() implies !(#[trigger] f[i].topic_filter
            == #[trigger] f[j].topic_filter && f[i].client_id == f[j].client_id) by {
            if pred(s.last()) {
                if j < fd.len() {
                    assert(f[i] == fd[i] && f[j] == fd[j]);
                } else {
                    assert(f[j] == s.last());
                    assert(f[i] == fd[i]);
                    lemma_sub_filter_member(s.drop_last(), pred, i);
                }
            } else {
                assert(f[i] == fd[i] && f[j] == fd[j]);
            }
        }
    }
}

/// Every filtered element is an element of the original.
pub proof fn lemma_sub_filter_member(s: Seq<SubView>, pred: spec_fn(SubView) -> bool, i: int)
    requires
        0 <= i < s.filter(pred).len(),
    ensures
        exists|k: int| 0 <= k < s.len() && #[trigger] s[k] == s.filter(pred)[i],
    decreases s.len(),
{
    reveal(Seq::filter);
    if s.len() > 0 {
        let fd = s.drop_last().filter(pred);
        if i < fd.len() {
            lemma_sub_filter_member(s.drop_last(), pred, i);
            let k = choose|k: int|
                0 <= k < s.drop_last().len() && #[trigger] s.drop_last()[k] == fd[i];
            assert(s[k] == s.filter(pred)[i]);
        } else {
            assert(s.filter(pred)[i] == s.last());
            assert(s[s.len() - 1] == s.filter(pred)[i]);
        }
    }
}

} // verus!
