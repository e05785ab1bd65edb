//! The leader's side of replication: the followers, in the order they came,
//! and the bytes queued for each of them.
use crate::command::set_frame;
use crate::frame::{encoding, lemma_array_model, models, Frame, FrameModel};
use crate::number::decimal;
use crate::store::{empty_snapshot, Store};
use crate::text::utf8_bytes;
use vstd::prelude::*;

verus! {

broadcast use vstd::std_specs::vec::group_vec_axioms, vstd::seq::group_seq_axioms;

/// A write to replay on the followers.
pub enum Action {
    SetValue { key: Vec<u8>, value: Vec<u8>, expiry: Option<u64> },
}

/// Bytes to write to one follower.
pub struct Delivery {
    pub follower: u64,
    pub bytes: Vec<u8>,
}

pub struct Registry {
    followers: Vec<u64>,
    outbox: Vec<Delivery>,
}

pub open spec fn delivery_model(d: Delivery) -> (u64, Seq<u8>) {
    (d.follower, d.bytes@)
}

pub open spec fn deliveries(v: Seq<Delivery>) -> Seq<(u64, Seq<u8>)> {
    v.map_values(|d: Delivery| delivery_model(d))
}

/// The same bytes for each follower, in the order of `followers`.
pub open spec fn fanout(followers: Seq<u64>, bytes: Seq<u8>) -> Seq<(u64, Seq<u8>)> {
    Seq::new(followers.len(), |i: int| (followers[i], bytes))
}

/// What is queued for follower `id`, in order.
pub open spec fn sent_to(out: Seq<(u64, Seq<u8>)>, id: u64) -> Seq<Seq<u8>>
    decreases out.len(),
{
    if out.len() == 0 {
        Seq::empty()
    } else if out.last().0 == id {
        sent_to(out.drop_last(), id).push(out.last().1)
    } else {
        sent_to(out.drop_last(), id)
    }
}

pub open spec fn unique_ids(s: Seq<u64>) -> bool {
    forall|i: int, j: int| 0 <= i < s.len() && 0 <= j < s.len() && s[i] == s[j] ==> i == j
}

/// The frame that replays an action.
pub fn action_frame(action: Action) -> (r: Frame)
    ensures
        r@ == (match action {
            Action::SetValue { key, value, expiry } => set_frame(key@, value@, expiry),
        }),
{
    match action {
        Action::SetValue { key, value, expiry } => {
            let mut items: Vec<Frame> = vec![
                Frame::Bulk(utf8_bytes("set")),
                Frame::Bulk(key),
                Frame::Bulk(value),
            ];
            match expiry {
                Some(ms) => {
                    items.push(Frame::Bulk(utf8_bytes("PX")));
                    items.push(Frame::Bulk(decimal(ms)));
                },
                None => {},
            }
            proof {
                lemma_array_model(items);
                assert(models(items@) =~= set_frame(key@, value@, expiry)->Array_0);
            }
            Frame::Array(items)
        },
    }
}

impl Registry {
    pub closed spec fn followers(&self) -> Seq<u64> {
        self.followers@
    }

    pub closed spec fn queued(&self) -> Seq<(u64, Seq<u8>)> {
        deliveries(self.outbox@)
    }

    /// No follower is there twice.
    pub open spec fn wf(&self) -> bool {
        unique_ids(self.followers())
    }

    pub fn new() -> (r: Registry)
        ensures
            r.wf(),
            r.followers() == Seq::<u64>::empty(),
            r.queued() == Seq::<(u64, Seq<u8>)>::empty(),
    {
        let r = Registry { followers: Vec::new(), outbox: Vec::new() };
        assert(deliveries(r.outbox@) =~= Seq::<(u64, Seq<u8>)>::empty());
        r
    }

    fn queue(&mut self, follower: u64, bytes: Vec<u8>)
        ensures
            final(self).followers@ == old(self).followers@,
            deliveries(final(self).outbox@) == deliveries(old(self).outbox@).push(
                (follower, bytes@),
            ),
    {
        let ghost before = deliveries(self.outbox@);
        let ghost b = bytes@;
        self.outbox.push(Delivery { follower, bytes });
        assert(deliveries(self.outbox@) =~= before.push((follower, b)));
    }

    /// Drops follower `id`, after a write to it failed.
    pub fn remove_follower(&mut self, id: u64)
        requires
            old(self).wf(),
        ensures
            final(self).wf(),
            final(self).queued() == old(self).queued(),
            !final(self).followers().contains(id),
            forall|f: u64| f != id ==> (old(self).followers().contains(f)
                <==> final(self).followers().contains(f)),
            old(self).followers().contains(id) ==> exists|i: int|
                0 <= i < old(self).followers().len() && old(self).followers()[i] == id
                    && final(self).followers() == old(self).followers().remove(i),
            !old(self).followers().contains(id) ==> final(self).followers() == old(
                self,
            ).followers(),
    {
        let mut i: usize = 0;
        while i < self.followers.len()
            invariant
                0 <= i <= self.followers@.len(),
                self.followers@ == old(self).followers@,
                self.outbox@ == old(self).outbox@,
                unique_ids(self.followers@),
                forall|j: int| 0 <= j < i ==> self.followers@[j] != id,
            decreases self.followers@.len() - i,
        {
            if self.followers[i] == id {
                let ghost before = self.followers@;
                self.followers.remove(i);
                assert forall|a: int, b: int|
                    0 <= a < self.followers@.len() && 0 <= b < self.followers@.len()
                        && self.followers@[a] == self.followers@[b] implies a == b by {
                    let a2 = if a < i { a } else { a + 1 };
                    let b2 = if b < i { b } else { b + 1 };
                    assert(self.followers@[a] == before[a2]);
                    assert(self.followers@[b] == before[b2]);
                }
                assert forall|f: u64| f != id implies (before.contains(f)
                    <==> self.followers@.contains(f)) by {
                    if before.contains(f) {
                        let j = choose|j: int| 0 <= j < before.len() && before[j] == f;
                        if j < i {
                            assert(self.followers@[j] == f);
                        } else {
                            assert(j != i);
                            assert(self.followers@[j - 1] == f);
                        }
                    }
                    if self.followers@.contains(f) {
                        let j = choose|j: int| 0 <= j < self.followers@.len() && self.followers@[j] == f;
                        if j < i {
                            assert(before[j] == f);
                        } else {
                            assert(before[j + 1] == f);
                        }
                    }
                }
                assert(!self.followers@.contains(id)) by {
                    if self.followers@.contains(id) {
                        let j = choose|j: int| 0 <= j < self.followers@.len() && self.followers@[j] == id;
                        if j < i {
                        } else {
                            assert(before[j + 1] == id);
                            assert(before[i as int] == id);
                        }
                    }
                }
                assert(before[i as int] == id && self.followers@ == before.remove(i as int));
                return;
            }
            i = i + 1;
        }
    }

    /// Hands out what is queued, in order, and empties the queue.
    pub fn take_outbox(&mut self) -> (r: Vec<Delivery>)
        requires
            old(self).wf(),
        ensures
            final(self).wf(),
            final(self).followers() == old(self).followers(),
            final(self).queued() == Seq::<(u64, Seq<u8>)>::empty(),
            deliveries(r@) == old(self).queued(),
    {
        let r = self.outbox.split_off(0);
        assert(deliveries(self.outbox@) =~= Seq::<(u64, Seq<u8>)>::empty());
        r
    }
}

/// Registers follower `id` (once) and queues the snapshot of `store` for
/// it; from then on every published write reaches it.
pub fn add_connection(registry: &mut Registry, id: u64, store: &Store)
    requires
        old(registry).wf(),
    ensures
        final(registry).wf(),
        final(registry).followers() == (if old(registry).followers().contains(id) {
            old(registry).followers()
        } else {
            old(registry).followers().push(id)
        }),
        final(registry).queued() == old(registry).queued().push(
            (id, encoding(FrameModel::RdbFile(empty_snapshot()))),
        ),
{
    let mut i: usize = 0;
    let mut present = false;
    while i < registry.followers.len()
        invariant
            0 <= i <= registry.followers@.len(),
            present <==> exists|j: int| 0 <= j < i && registry.followers@[j] == id,
        decreases registry.followers@.len() - i,
    {
        if registry.followers[i] == id {
            present = true;
        }
        i = i + 1;
    }
    assert(present <==> registry.followers@.contains(id));
    if !present {
        let ghost before = registry.followers@;
        registry.followers.push(id);
        assert forall|a: int, b: int|
            0 <= a < registry.followers@.len() && 0 <= b < registry.followers@.len()
                && registry.followers@[a] == registry.followers@[b] implies a == b by {
            if a < before.len() && b < before.len() {
            } else if a < before.len() {
                assert(before[a] == id);
            } else if b < before.len() {
                assert(before[b] == id);
            }
        }
    }
    let snapshot = Frame::RdbFile(store.as_snapshot());
    let bytes = snapshot.to_bytes();
    registry.queue(id, bytes);
}


/// Queues `frame` for every follower, in the order they came.
pub fn publish_frame(registry: &mut Registry, frame: &Frame)
    requires
        old(registry).wf(),
    ensures
        final(registry).wf(),
        final(registry).followers() == old(registry).followers(),
        final(registry).queued() == old(registry).queued() + fanout(
            old(registry).followers(),
            encoding(frame@),
        ),
{
    let bytes = frame.to_bytes();
    let ghost start = deliveries(registry.outbox@);
    let mut i: usize = 0;
    while i < registry.followers.len()
        invariant
            0 <= i <= registry.followers@.len(),
            registry.followers@ == old(registry).followers@,
            bytes@ == encoding(frame@),
            deliveries(registry.outbox@) == start + fanout(registry.followers@.subrange(0, i as int), bytes@),
        decreases registry.followers@.len() - i,
    {
        let id = registry.followers[i];
        registry.queue(id, bytes.clone());
        assert(fanout(registry.followers@.subrange(0, i + 1), bytes@) =~= fanout(
            registry.followers@.subrange(0, i as int),
            bytes@,
        ).push((id, bytes@)));
        i = i + 1;
    }
    assert(registry.followers@.subrange(0, i as int) =~= registry.followers@);
}


/// Queues the frame that replays `action` for every follower.
pub fn publish(registry: &mut Registry, action: Action)
    requires
        old(registry).wf(),
    ensures
        final(registry).wf(),
        final(registry).followers() == old(registry).followers(),
        final(registry).queued() == old(registry).queued() + fanout(
            old(registry).followers(),
            encoding(
                match action {
                    Action::SetValue { key, value, expiry } => set_frame(key@, value@, expiry),
                },
            ),
        ),
{
    let frame = action_frame(action);
    publish_frame(registry, &frame);
}


proof fn lemma_sent_to_concat(a: Seq<(u64, Seq<u8>)>, b: Seq<(u64, Seq<u8>)>, id: u64)
    ensures
        sent_to(a + b, id) == sent_to(a, id) + sent_to(b, id),
    decreases b.len(),
{
    if b.len() == 0 {
        assert(a + b =~= a);
        assert(sent_to(a, id) + sent_to(b, id) =~= sent_to(a, id));
    } else {
        lemma_sent_to_concat(a, b.drop_last(), id);
        assert((a + b).drop_last() =~= a + b.drop_last());
        assert((a + b).last() == b.last());
        if b.last().0 == id {
            assert(sent_to(a, id) + sent_to(b, id) =~= (sent_to(a, id) + sent_to(b.drop_last(), id)).push(b.last().1));
        }
    }
}

proof fn lemma_sent_to_fanout(followers: Seq<u64>, bytes: Seq<u8>, id: u64)
    requires
        unique_ids(followers),
    ensures
        followers.contains(id) ==> sent_to(fanout(followers, bytes), id) == seq![bytes],
        !followers.contains(id) ==> sent_to(fanout(followers, bytes), id) == Seq::<Seq<u8>>::empty(),
    decreases followers.len(),
{
    if followers.len() > 0 {
        let rest = followers.drop_last();
        assert(unique_ids(rest));
        lemma_sent_to_fanout(rest, bytes, id);
        assert(fanout(followers, bytes).drop_last() =~= fanout(rest, bytes));
        if followers.last() == id {
            assert(!rest.contains(id)) by {
                if rest.contains(id) {
                    let j = choose|j: int| 0 <= j < rest.len() && rest[j] == id;
                    assert(followers[j] == followers[followers.len() - 1]);
                }
            }
            assert(followers.contains(id)) by {
                assert(followers[followers.len() - 1] == id);
            }
            assert(seq![bytes] =~= Seq::<Seq<u8>>::empty().push(bytes));
        } else {
            assert(followers.contains(id) == rest.contains(id)) by {
                if followers.contains(id) {
                    let j = choose|j: int| 0 <= j < followers.len() && followers[j] == id;
                    assert(rest[j] == id);
                }
                if rest.contains(id) {
                    let j = choose|j: int| 0 <= j < rest.len() && rest[j] == id;
                    assert(followers[j] == id);
                }
            }
        }
    } else {
        assert(fanout(followers, bytes) =~= Seq::<(u64, Seq<u8>)>::empty());
    }
}

/// Publishing writes one after the other: every follower registered before
/// them gets each write once, in the order they were published.
pub proof fn law_fanout_order(
    followers: Seq<u64>,
    queued: Seq<(u64, Seq<u8>)>,
    first: FrameModel,
    second: FrameModel,
    id: u64,
)
    requires
        unique_ids(followers),
        followers.contains(id),
    ensures
        sent_to(
            queued + fanout(followers, encoding(first)) + fanout(followers, encoding(second)),
            id,
        ) == sent_to(queued, id).push(encoding(first)).push(encoding(second)),
{
    lemma_sent_to_concat(queued + fanout(followers, encoding(first)), fanout(followers, encoding(second)), id);
    lemma_sent_to_concat(queued, fanout(followers, encoding(first)), id);
    lemma_sent_to_fanout(followers, encoding(first), id);
    lemma_sent_to_fanout(followers, encoding(second), id);
    assert(sent_to(queued, id) + seq![encoding(first)] + seq![encoding(second)] =~= sent_to(
        queued,
        id,
    ).push(encoding(first)).push(encoding(second)));
}

} // verus!
