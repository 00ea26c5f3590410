//! The in-flight store: QoS 2 messages awaiting the PUBREL or PUBCOMP half
//! of their handshake, keyed by client id and packet identifier. One flat
//! table holds every client's entries; at most one entry exists per
//! (client, identifier) pair.

use vstd::prelude::*;

verus! {

/// One QoS 2 message parked between PUBLISH and PUBREL, or between the
/// forwarded PUBLISH and PUBCOMP: who sent it, whom it is for, and its
/// encoded bytes.
#[derive(Clone, Debug)]
pub struct MessageFrame {
    pub from_id: Vec<u8>,
    pub to_id: Vec<u8>,
    pub bytes: Vec<u8>,
    pub message_id: u16,
}

/// Spec-level view of a frame.
pub struct FrameView {
    pub from_id: Seq<u8>,
    pub to_id: Seq<u8>,
    pub bytes: Seq<u8>,
    pub message_id: u16,
}

impl View for MessageFrame {
    type V = FrameView;

    open spec fn view(&self) -> FrameView {
        FrameView {
            from_id: self.from_id@,
            to_id: self.to_id@,
            bytes: self.bytes@,
            message_id: self.message_id,
        }
    }
}

impl MessageFrame {
    pub fn new(from_id: Vec<u8>, to_id: Vec<u8>, bytes: Vec<u8>, message_id: u16) -> (r: Self)
        ensures
            r@.from_id == from_id@,
            r@.to_id == to_id@,
            r@.bytes == bytes@,
            r@.message_id == message_id,
    {
        MessageFrame { from_id, to_id, bytes, message_id }
    }
}

/// One record of the store: the owning client, the packet identifier, and
/// the frame.
#[derive(Clone, Debug)]
pub struct InflightRecord {
    pub client_id: Vec<u8>,
    pub message_id: u16,
    pub frame: MessageFrame,
}

/// Spec-level view of a record.
pub struct RecordView {
    pub client_id: Seq<u8>,
    pub message_id: u16,
    pub frame: FrameView,
}

impl View for InflightRecord {
    type V = RecordView;

    open spec fn view(&self) -> RecordView {
        RecordView { client_id: self.client_id@, message_id: self.message_id, frame: self.frame@ }
    }
}

/// The record belongs to the given client and identifier.
pub open spec fn spec_rec_key(r: RecordView, cid: Seq<u8>, mid: u16) -> bool {
    r.client_id == cid && r.message_id == mid
}

/// The per-client, per-identifier table of in-flight QoS 2 messages.
pub struct MessageContainer {
    entries: Vec<InflightRecord>,
}

impl View for MessageContainer {
    type V = Seq<RecordView>;

    closed spec fn view(&self) -> Seq<RecordView> {
        self.entries@.map_values(|r: InflightRecord| r@)
    }
}

impl MessageContainer {
    /// At most one entry per (client, identifier) pair.
    pub open spec fn wf(self) -> bool {
        forall|i: int, j: int|
            0 <= i < j < self@.len() ==> !(#[trigger] self@[i].client_id == #[trigger] self@[
                j
            ].client_id && self@[i].message_id == self@[j].message_id)
    }

    /// The store holds an entry for this client and identifier.
    pub open spec fn spec_contains(self, cid: Seq<u8>, mid: u16) -> bool {
        exists|i: int| 0 <= i < self@.len() && spec_rec_key(#[trigger] self@[i], cid, mid)
    }

    /// The store holds some entry for this client.
    pub open spec fn spec_has_client(self, cid: Seq<u8>) -> bool {
        exists|i: int| 0 <= i < self@.len() && (#[trigger] self@[i]).client_id == cid
    }

    /// The index of the entry for (client, identifier); meaningful when the
    /// store holds one.
    pub open spec fn spec_entry_idx(self, cid: Seq<u8>, mid: u16) -> int {
        choose|i: int| 0 <= i < self@.len() && spec_rec_key(#[trigger] self@[i], cid, mid)
    }

    /// The stored frame for (client, identifier); meaningful when the store
    /// holds one, which `wf` makes unique.
    pub open spec fn spec_entry(self, cid: Seq<u8>, mid: u16) -> FrameView {
        self@[self.spec_entry_idx(cid, mid)].frame
    }

    /// An empty store.
    pub fn new() -> (r: Self)
        ensures
            r@ == Seq::<RecordView>::empty(),
            r.wf(),
    {
        let r = MessageContainer { entries: Vec::new() };
        proof {
            assert(r@ =~= Seq::<RecordView>::empty());
        }
        r
    }

    /// Makes sure the client can hold entries. Tables spring into being on
    /// the first `append`, so nothing changes here; the operation exists so
    /// a CONNECT can declare the client, and is idempotent as the protocol
    /// requires.
    pub fn init(&mut self, client_id: &Vec<u8>)
        ensures
            *final(self) == *old(self),
    {
    }

    /// Removes any entry for (client, identifier), keeping everything else
    /// in order; the removed frame comes back.
    fn take_entry(&mut self, client_id: &Vec<u8>, message_id: u16) -> (r: Option<MessageFrame>)
        requires
            old(self).wf(),
        ensures
            final(self).wf(),
            final(self)@ == old(self)@.filter(
                |rv: RecordView| !spec_rec_key(rv, client_id@, message_id),
            ),
            match r {
                Some(f) => old(self).spec_contains(client_id@, message_id) && exists|i: int|
                    0 <= i < old(self)@.len() && spec_rec_key(
                        #[trigger] old(self)@[i],
                        client_id@,
                        message_id,
                    ) && f@ == old(self)@[i].frame,
                None => !old(self).spec_contains(client_id@, message_id),
            },
    {
        let ghost orig = self@;
        let ghost pred = |rv: RecordView| !spec_rec_key(rv, client_id@, message_id);
        let mut found: Option<MessageFrame> = None;
        let mut k: usize = 0;
        proof {
            reveal(Seq::filter);
            assert(orig.subrange(0, 0).filter(pred) =~= Seq::<RecordView>::empty());
            assert(self@ =~= orig.subrange(0, 0).filter(pred) + orig.skip(0));
        }
        let mut jj: Ghost<int> = Ghost(0);
        while k < self.entries.len()
            invariant
                old(self).wf(),
                orig == old(self)@,
                pred == (|rv: RecordView| !spec_rec_key(rv, client_id@, message_id)),
                0 <= jj@ <= orig.len(),
                self@ == orig.subrange(0, jj@).filter(pred) + orig.skip(jj@),
                k == orig.subrange(0, jj@).filter(pred).len(),
                k <= self@.len(),
                match found {
                    Some(f) => exists|i: int|
                        0 <= i < jj@ && spec_rec_key(#[trigger] orig[i], client_id@, message_id)
                            && f@ == orig[i].frame,
                    None => forall|i: int|
                        0 <= i < jj@ ==> !spec_rec_key(#[trigger] orig[i], client_id@, message_id),
                },
            decreases orig.len() - jj@,
        {
            let ghost j = jj@;
            proof {
                assert(orig.skip(j)[0] == orig[j]);
                assert(self@[k as int] == orig[j]);
                reveal(Seq::filter);
                assert(orig.subrange(0, j + 1).drop_last() =~= orig.subrange(0, j));
                assert(orig.subrange(0, j + 1).last() == orig[j]);
            }
            let is_key = crate::topic::bytes_eq(&self.entries[k].client_id, client_id)
                && self.entries[k].message_id == message_id;
            if is_key {
                let rec = self.entries.remove(k);
                found = Some(rec.frame);
                proof {
                    assert(orig.subrange(0, j + 1).filter(pred) =~= orig.subrange(0, j).filter(
                        pred,
                    ));
                    assert(self@ =~= orig.subrange(0, j + 1).filter(pred) + orig.skip(j + 1)) by {
                        assert(self@ =~= (orig.subrange(0, j).filter(pred) + orig.skip(
                            j,
                        )).remove(k as int));
                        assert((orig.subrange(0, j).filter(pred) + orig.skip(j)).remove(k as int)
                            =~= orig.subrange(0, j).filter(pred) + orig.skip(j + 1));
                    }
                }
            } else {
                k = k + 1;
                proof {
                    assert(orig.subrange(0, j + 1).filter(pred) =~= orig.subrange(0, j).filter(
                        pred,
                    ).push(orig[j]));
                    assert(self@ =~= orig.subrange(0, j + 1).filter(pred) + orig.skip(j + 1));
                }
            }
            proof {
                jj@ = j + 1;
            }
        }
        proof {
            assert(orig.skip(jj@) =~= Seq::<RecordView>::empty()) by {
                assert(self@.len() == orig.subrange(0, jj@).filter(pred).len() + orig.skip(
                    jj@,
                ).len());
            }
            assert(jj@ == orig.len());
            assert(orig.subrange(0, jj@) =~= orig);
            assert(self@ =~= orig.filter(pred));
            lemma_filter_wf(orig, pred);
        }
        found
    }

    /// Inserts the frame for (client, identifier). A duplicate arrival,
    /// such as a DUP retransmission, replaces the stored entry without
    /// error.
    pub fn append(&mut self, client_id: &Vec<u8>, message_id: u16, frame: MessageFrame)
        requires
            old(self).wf(),
        ensures
            final(self).wf(),
            final(self)@ == old(self)@.filter(
                |rv: RecordView| !spec_rec_key(rv, client_id@, message_id),
            ).push(
                RecordView { client_id: client_id@, message_id, frame: frame@ },
            ),
            final(self).spec_contains(client_id@, message_id),
    {
        let _ = self.take_entry(client_id, message_id);
        let ghost mid_view = self@;
        let cid = client_id.clone();
        self.entries.push(InflightRecord { client_id: cid, message_id, frame });
        proof {
            let rv = RecordView { client_id: client_id@, message_id, frame: frame@ };
            assert(self@ =~= mid_view.push(rv));
            let n = self@.len() - 1;
            assert(spec_rec_key(self@[n], client_id@, message_id));
            assert(final(self).wf()) by {
                let pred = |rv: RecordView| !spec_rec_key(rv, client_id@, message_id);
                lemma_filter_wf(old(self)@, pred);
                assert forall|i: int, j: int| 0 <= i < j < self@.len() implies !(#[trigger] self@[
                    i
                ].client_id == #[trigger] self@[j].client_id && self@[i].message_id == self@[
                    j
                ].message_id) by {
                    if j == n {
                        assert(mid_view[i] == self@[i]);
                        old(self)@.lemma_filter_pred(pred, i);
                    } else {
                        assert(self@[i] == mid_view[i] && self@[j] == mid_view[j]);
                    }
                }
            }
        }
    }

    /// The store holds an entry for this client and identifier.
    pub fn contains(&self, client_id: &Vec<u8>, message_id: u16) -> (r: bool)
        ensures
            r == self.spec_contains(client_id@, message_id),
    {
        let n = self.entries.len();
        let mut k: usize = 0;
        while k < n
            invariant
                n == self@.len(),
                k <= n,
                forall|i: int|
                    0 <= i < k ==> !spec_rec_key(#[trigger] self@[i], client_id@, message_id),
            decreases n - k,
        {
            if crate::topic::bytes_eq(&self.entries[k].client_id, client_id)
                && self.entries[k].message_id == message_id {
                proof {
                    assert(spec_rec_key(self@[k as int], client_id@, message_id));
                }
                return true;
            }
            k = k + 1;
        }
        false
    }

    /// The store holds some entry for this client.
    pub fn has_client(&self, client_id: &Vec<u8>) -> (r: bool)
        ensures
            r == self.spec_has_client(client_id@),
    {
        let n = self.entries.len();
        let mut k: usize = 0;
        while k < n
            invariant
                n == self@.len(),
                k <= n,
                forall|i: int| 0 <= i < k ==> (#[trigger] self@[i]).client_id != client_id@,
            decreases n - k,
        {
            if crate::topic::bytes_eq(&self.entries[k].client_id, client_id) {
                proof {
                    assert((self@[k as int]).client_id == client_id@);
                }
                return true;
            }
            k = k + 1;
        }
        false
    }

    /// Completes the handshake for (client, identifier): the entry leaves
    /// the store and its frame comes back. A missing entry is no error: the
    /// handshake had already completed, and `None` comes back.
    pub fn complete(&mut self, client_id: &Vec<u8>, message_id: u16) -> (r: Option<MessageFrame>)
        requires
            old(self).wf(),
        ensures
            final(self).wf(),
            final(self)@ == old(self)@.filter(
                |rv: RecordView| !spec_rec_key(rv, client_id@, message_id),
            ),
            !final(self).spec_contains(client_id@, message_id),
            match r {
                Some(f) => old(self).spec_contains(client_id@, message_id) && f@ == old(
                    self,
                ).spec_entry(client_id@, message_id),
                None => !old(self).spec_contains(client_id@, message_id),
            },
    {
        let r = self.take_entry(client_id, message_id);
        proof {
            let pred = |rv: RecordView| !spec_rec_key(rv, client_id@, message_id);
            assert forall|i: int| 0 <= i < self@.len() implies !spec_rec_key(
                #[trigger] self@[i],
                client_id@,
                message_id,
            ) by {
                old(self)@.lemma_filter_pred(pred, i);
            }
            if r is Some {
                let i0 = choose|i: int|
                    0 <= i < old(self)@.len() && spec_rec_key(
                        #[trigger] old(self)@[i],
                        client_id@,
                        message_id,
                    ) && (r->0)@ == old(self)@[i].frame;
                let i1 = old(self).spec_entry_idx(client_id@, message_id);
                assert(spec_rec_key(old(self)@[i1], client_id@, message_id));
                assert(i0 == i1) by {
                    if i0 != i1 {
                        assert(old(self)@[i0].client_id == old(self)@[i1].client_id
                            && old(self)@[i0].message_id == old(self)@[i1].message_id);
                    }
                }
            }
        }
        r
    }

    /// Drops every entry this client owns: what a clean-session client's
    /// disconnect asks for.
    pub fn remove(&mut self, client_id: &Vec<u8>)
        requires
            old(self).wf(),
        ensures
            final(self).wf(),
            final(self)@ == old(self)@.filter(
                |rv: RecordView| rv.client_id != client_id@,
            ),
            !final(self).spec_has_client(client_id@),
    {
        let ghost orig = self@;
        let ghost pred = |rv: RecordView| rv.client_id != client_id@;
        let mut k: usize = 0;
        let mut jj: Ghost<int> = Ghost(0);
        proof {
            reveal(Seq::filter);
            assert(orig.subrange(0, 0).filter(pred) =~= Seq::<RecordView>::empty());
            assert(self@ =~= orig.subrange(0, 0).filter(pred) + orig.skip(0));
        }
        while k < self.entries.len()
            invariant
                old(self).wf(),
                orig == old(self)@,
                pred == (|rv: RecordView| rv.client_id != client_id@),
                0 <= jj@ <= orig.len(),
                self@ == orig.subrange(0, jj@).filter(pred) + orig.skip(jj@),
                k == orig.subrange(0, jj@).filter(pred).len(),
                k <= self@.len(),
            decreases orig.len() - jj@,
        {
            let ghost j = jj@;
            proof {
                assert(orig.skip(j)[0] == orig[j]);
                assert(self@[k as int] == orig[j]);
                reveal(Seq::filter);
                assert(orig.subrange(0, j + 1).drop_last() =~= orig.subrange(0, j));
                assert(orig.subrange(0, j + 1).last() == orig[j]);
            }
            if crate::topic::bytes_eq(&self.entries[k].client_id, client_id) {
                let _ = self.entries.remove(k);
                proof {
                    assert(orig.subrange(0, j + 1).filter(pred) =~= orig.subrange(0, j).filter(
                        pred,
                    ));
                    assert(self@ =~= orig.subrange(0, j + 1).filter(pred) + orig.skip(j + 1)) by {
                        assert(self@ =~= (orig.subrange(0, j).filter(pred) + orig.skip(
                            j,
                        )).remove(k as int));
                        assert((orig.subrange(0, j).filter(pred) + orig.skip(j)).remove(k as int)
                            =~= orig.subrange(0, j).filter(pred) + orig.skip(j + 1));
                    }
                }
            } else {
                k = k + 1;
                proof {
                    assert(orig.subrange(0, j + 1).filter(pred) =~= orig.subrange(0, j).filter(
                        pred,
                    ).push(orig[j]));
                    assert(self@ =~= orig.subrange(0, j + 1).filter(pred) + orig.skip(j + 1));
                }
            }
            proof {
                jj@ = j + 1;
            }
        }
        proof {
            assert(orig.skip(jj@) =~= Seq::<RecordView>::empty()) by {
                assert(self@.len() == orig.subrange(0, jj@).filter(pred).len() + orig.skip(
                    jj@,
                ).len());
            }
            assert(jj@ == orig.len());
            assert(orig.subrange(0, jj@) =~= orig);
            assert(self@ =~= orig.filter(pred));
            lemma_filter_wf(orig, pred);
            assert forall|i: int| 0 <= i < self@.len() implies (#[trigger] self@[i]).client_id
                != client_id@ by {
                orig.lemma_filter_pred(pred, i);
            }
        }
    }
}

/// Filtering keeps the pairwise-distinct keys distinct.
pub proof fn lemma_filter_wf(s: Seq<RecordView>, pred: spec_fn(RecordView) -> bool)
    requires
        forall|i: int, j: int|
            0 <= i < j < s.len() ==> !(#[trigger] s[i].client_id == #[trigger] s[j].client_id
                && s[i].message_id == s[j].message_id),
    ensures
        forall|i: int, j: int|
            0 <= i < j < s.filter(pred).len() ==> !(#[trigger] s.filter(pred)[i].client_id
                == #[trigger] s.filter(pred)[j].client_id && s.filter(pred)[i].message_id
                == s.filter(pred)[j].message_id),
    decreases s.len(),
{
    reveal(Seq::filter);
    if s.len() > 0 {
        lemma_filter_wf(s.drop_last(), pred);
        let f = s.filter(pred);
        let fd = s.drop_last().filter(pred);
        assert forall|i: int, j: int| 0 <= i < j < f.len() implies !(#[trigger] f[i].client_id
            == #[trigger] f[j].client_id && f[i].message_id == f[j].message_id) by {
            if pred(s.last()) {
                if j < fd.len() {
                    assert(f[i] == fd[i] && f[j] == fd[j]);
                } else {
                    assert(f[j] == s.last());
                    assert(f[i] == fd[i]);
                    lemma_filter_member(s.drop_last(), pred, i);
                }
            } else {
                assert(f[i] == fd[i] && f[j] == fd[j]);
            }
        }
    }
}

/// Every filtered element is an element of the original.
pub proof fn lemma_filter_member(s: Seq<RecordView>, pred: spec_fn(RecordView) -> bool, i: int)
    requires
        0 <= i < s.filter(pred).len(),
    ensures
        exists|k: int| 0 <= k < s.len() && #[trigger] s[k] == s.filter(pred)[i],
    decreases s.len(),
{
    reveal(Seq::filter);
    if s.len() > 0 {
        let fd = s.drop_last().filter(pred);
        if i < fd.len() {
            lemma_filter_member(s.drop_last(), pred, i);
            let k = choose|k: int|
                0 <= k < s.drop_last().len() && #[trigger] s.drop_last()[k] == fd[i];
            assert(s[k] == s.filter(pred)[i]);
        } else {
            assert(s.filter(pred)[i] == s.last());
            assert(s[s.len() - 1] == s.filter(pred)[i]);
        }
    }
}

} // verus!
