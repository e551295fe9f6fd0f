//! The event queue: two generations of event entity ids plus a send counter.
//!
//! Events are appended to the newer generation. `advance` swaps the
//! generations, so an event survives exactly one full cycle before the next
//! `advance` hands it back for reclamation. Readers locate their unread
//! suffix from the counters alone, so the queue retains no per-reader state.

use vstd::prelude::*;

use crate::id::EntityId;
use crate::store::{map_of, EventBundle, Store, StoreModel};

verus! {

/// An ordered list of event entity ids plus the send-counter value at which
/// this sequence most recently became the newer buffer.
pub struct EventSequence {
    pub events: Vec<EntityId>,
    pub start_count: usize,
}

/// The mathematical model of the queue: the two retained generations, the
/// send count of the first retained event, and the total send count.
pub ghost struct QueueModel {
    /// Ids of the older generation, oldest first.
    pub older: Seq<EntityId>,
    /// Ids of the newer generation, oldest first.
    pub newer: Seq<EntityId>,
    /// The send count at which the oldest retained event was sent.
    pub oldest_count: nat,
    /// Total number of events ever sent.
    pub send_count: nat,
}

impl QueueModel {
    /// The counters account for every retained event.
    pub open spec fn wf(self) -> bool {
        self.oldest_count + self.older.len() + self.newer.len() == self.send_count
    }

    /// Every retained event id, oldest first.
    pub open spec fn retained(self) -> Seq<EntityId> {
        self.older + self.newer
    }

    /// The send count at which the newer generation began.
    pub open spec fn newer_start(self) -> int {
        self.oldest_count + self.older.len() as int
    }

    /// The id sent at count `k`, for retained `k`.
    pub open spec fn event_at(self, k: int) -> EntityId
        recommends
            self.oldest_count <= k < self.send_count,
    {
        self.retained()[k - self.oldest_count]
    }

    /// The queue after one more send.
    pub open spec fn sent(self, id: EntityId) -> QueueModel {
        QueueModel { newer: self.newer.push(id), send_count: (self.send_count + 1) as nat, ..self }
    }

    /// The queue after swapping generations: the newer generation becomes
    /// the older one and a fresh empty sequence becomes the newer one.
    pub open spec fn advanced(self) -> QueueModel {
        QueueModel {
            older: self.newer,
            newer: Seq::empty(),
            oldest_count: (self.oldest_count + self.older.len()) as nat,
            send_count: self.send_count,
        }
    }

    /// The queue after both generations are emptied at once.
    pub open spec fn drained(self) -> QueueModel {
        QueueModel {
            older: Seq::empty(),
            newer: Seq::empty(),
            oldest_count: self.send_count,
            send_count: self.send_count,
        }
    }
}

/// The event queue: an older and a newer generation plus the send counter.
pub struct EventEntities {
    pub events_a: EventSequence,
    pub events_b: EventSequence,
    pub send_count: usize,
}

impl View for EventEntities {
    type V = QueueModel;

    open spec fn view(&self) -> QueueModel {
        QueueModel {
            older: self.events_a.events@,
            newer: self.events_b.events@,
            oldest_count: self.events_a.start_count as nat,
            send_count: self.send_count as nat,
        }
    }
}

impl EventEntities {
    /// Each sequence starts where the previous one ends, and the newer one
    /// ends at the send counter.
    pub open spec fn wf(self) -> bool {
        &&& self.events_a.start_count + self.events_a.events@.len()
            == self.events_b.start_count
        &&& self.events_b.start_count + self.events_b.events@.len() == self.send_count
    }

    pub proof fn lemma_wf_model(self)
        requires
            self.wf(),
        ensures
            self@.wf(),
    {
    }

    /// An empty queue with all counters at zero.
    pub fn new() -> (q: EventEntities)
        ensures
            q.wf(),
            q@ == (QueueModel {
                older: Seq::<EntityId>::empty(),
                newer: Seq::<EntityId>::empty(),
                oldest_count: 0,
                send_count: 0,
            }),
    {
        EventEntities {
            events_a: EventSequence { events: Vec::new(), start_count: 0 },
            events_b: EventSequence { events: Vec::new(), start_count: 0 },
            send_count: 0,
        }
    }

    /// Appends one event id to the newer generation and counts it.
    pub fn send(&mut self, id: EntityId)
        requires
            old(self).wf(),
            old(self).send_count < usize::MAX,
        ensures
            final(self).wf(),
            final(self)@ == old(self)@.sent(id),
    {
        self.events_b.events.push(id);
        self.send_count = self.send_count + 1;
    }

    /// Appends a batch of event ids in order, counting each.
    pub fn send_batch(&mut self, ids: Vec<EntityId>)
        requires
            old(self).wf(),
            old(self).send_count + ids@.len() <= usize::MAX,
        ensures
            final(self).wf(),
            final(self)@ == (QueueModel {
                newer: old(self)@.newer + ids@,
                send_count: (old(self)@.send_count + ids@.len()) as nat,
                ..old(self)@
            }),
    {
        let n = ids.len();
        let mut i: usize = 0;
        while i < n
            invariant
                i <= n,
                n == ids@.len(),
                self.wf(),
                self.send_count + (n - i) <= usize::MAX,
                self@ == (QueueModel {
                    newer: old(self)@.newer + ids@.subrange(0, i as int),
                    send_count: (old(self)@.send_count + i) as nat,
                    ..old(self)@
                }),
            decreases n - i,
        {
            self.send(ids[i]);
            proof {
                assert(old(self)@.newer + ids@.subrange(0, i + 1 as int)
                    =~= (old(self)@.newer + ids@.subrange(0, i as int)).push(ids@[i as int]));
            }
            i = i + 1;
        }
        proof {
            assert(ids@.subrange(0, n as int) =~= ids@);
        }
    }

    /// Swaps the generations: the previous newer generation becomes the
    /// older one, and everything that was in the old older generation is
    /// returned for the caller to reclaim.
    pub fn advance(&mut self) -> (r: Vec<EntityId>)
        requires
            old(self).wf(),
        ensures
            final(self).wf(),
            final(self)@ == old(self)@.advanced(),
            r@ == old(self)@.older,
    {
        let mut out: Vec<EntityId> = Vec::new();
        core::mem::swap(&mut out, &mut self.events_a.events);
        core::mem::swap(&mut self.events_a.events, &mut self.events_b.events);
        self.events_a.start_count = self.events_b.start_count;
        self.events_b.start_count = self.send_count;
        out
    }

    /// Empties both generations at once and returns everything retained,
    /// oldest first; future readers see no phantom unread entries.
    pub fn drain(&mut self) -> (r: Vec<EntityId>)
        requires
            old(self).wf(),
        ensures
            final(self).wf(),
            final(self)@ == old(self)@.drained(),
            r@ == old(self)@.retained(),
    {
        let mut out: Vec<EntityId> = Vec::new();
        core::mem::swap(&mut out, &mut self.events_a.events);
        let mut tail: Vec<EntityId> = Vec::new();
        core::mem::swap(&mut tail, &mut self.events_b.events);
        out.append(&mut tail);
        self.events_a.start_count = self.send_count;
        self.events_b.start_count = self.send_count;
        out
    }

    /// The number of retained events.
    pub fn len(&self) -> (r: usize)
        requires
            self.wf(),
        ensures
            r == self@.retained().len(),
    {
        self.events_a.events.len() + self.events_b.events.len()
    }

    /// True if no event is retained.
    pub fn is_empty(&self) -> (r: bool)
        requires
            self.wf(),
        ensures
            r == (self@.retained().len() == 0),
    {
        self.events_a.events.len() == 0 && self.events_b.events.len() == 0
    }
}

impl Default for EventEntities {
    /// An empty queue with all counters at zero.
    fn default() -> (q: EventEntities)
        ensures
            q.wf(),
            q@.retained().len() == 0,
            q@.send_count == 0,
    {
        EventEntities::new()
    }
}

/// The model-level effect of sending one event: the store gains a record
/// carrying the bundle's attachments and the queue counts its id.
pub open spec fn event_sent(
    m: StoreModel,
    qm: QueueModel,
    target: Option<EntityId>,
    propagated_from: Option<EntityId>,
    tags: Set<u64>,
    attrs: Map<u64, u64>,
) -> (StoreModel, QueueModel) {
    (m.spawned(target, propagated_from, tags, attrs), qm.sent(m.new_id()))
}

/// Creates an event entity carrying the bundle's attachments, appends its
/// id to the newer generation, and returns it.
pub fn send_event(store: &mut Store, q: &mut EventEntities, bundle: EventBundle) -> (r: EntityId)
    requires
        old(store)@.recs.len() < usize::MAX,
        old(q).wf(),
        old(q).send_count < usize::MAX,
    ensures
        final(q).wf(),
        (final(store)@, final(q)@) == event_sent(
            old(store)@,
            old(q)@,
            match bundle.target {
                Some(t) => Some(t.0),
                None => None,
            },
            match bundle.propagated_from {
                Some(p) => Some(p.0),
                None => None,
            },
            bundle.tags@.to_set(),
            map_of(bundle.attrs@),
        ),
        r == old(store)@.new_id(),
        final(store)@.live(r),
{
    let id = store.spawn(bundle);
    q.send(id);
    id
}

/// Sends an event that concerns `target`: the bundle is delivered with its
/// `Target` record set to `target`, whatever it held before.
pub fn send_event_to(
    store: &mut Store,
    q: &mut EventEntities,
    target: EntityId,
    bundle: EventBundle,
) -> (r: EntityId)
    requires
        old(store)@.recs.len() < usize::MAX,
        old(q).wf(),
        old(q).send_count < usize::MAX,
    ensures
        final(q).wf(),
        (final(store)@, final(q)@) == event_sent(
            old(store)@,
            old(q)@,
            Some(target),
            match bundle.propagated_from {
                Some(p) => Some(p.0),
                None => None,
            },
            bundle.tags@.to_set(),
            map_of(bundle.attrs@),
        ),
        r == old(store)@.new_id(),
{
    let EventBundle { tags, attrs, target: _, propagated_from } = bundle;
    send_event(
        store,
        q,
        EventBundle { tags, attrs, target: Some(crate::id::Target(target)), propagated_from },
    )
}

/// True if the queue retains any event; hosts may gate dispatch on it.
pub fn any_events(q: &EventEntities) -> (r: bool)
    requires
        q.wf(),
    ensures
        r == (q@.retained().len() > 0),
{
    !q.is_empty()
}

/// The store after every listed entity is destroyed, in order.
pub open spec fn destroyed_all(m: StoreModel, ids: Seq<EntityId>) -> StoreModel
    decreases ids.len(),
{
    if ids.len() == 0 {
        m
    } else {
        destroyed_all(m.destroyed(ids[0]), ids.skip(1))
    }
}

/// Destroying entities never resurrects one: a dead handle stays dead.
pub proof fn lemma_destroyed_all_stays_dead(m: StoreModel, ids: Seq<EntityId>, e: EntityId)
    requires
        !m.live(e),
    ensures
        !destroyed_all(m, ids).live(e),
    decreases ids.len(),
{
    if ids.len() > 0 {
        lemma_destroyed_all_stays_dead(m.destroyed(ids[0]), ids.skip(1), e);
    }
}

/// After destroying a list of entities, none of them is live.
pub proof fn lemma_destroyed_all_dead(m: StoreModel, ids: Seq<EntityId>)
    ensures
        forall|i: int| 0 <= i < ids.len() ==> !destroyed_all(m, ids).live(#[trigger] ids[i]),
    decreases ids.len(),
{
    if ids.len() > 0 {
        lemma_destroyed_all_stays_dead(m.destroyed(ids[0]), ids.skip(1), ids[0]);
        lemma_destroyed_all_dead(m.destroyed(ids[0]), ids.skip(1));
        assert forall|i: int| 0 <= i < ids.len() implies !destroyed_all(m, ids).live(ids[i]) by {
            if i > 0 {
                assert(ids.skip(1)[i - 1] == ids[i]);
            }
        }
    }
}

/// One retention step: swaps the queue's generations and destroys every
/// entity of the generation that fell out — each reclaimed event entity is
/// destroyed exactly once, exactly one full cycle after it was sent.
#[verifier::loop_isolation(false)]
pub fn update_events(store: &mut Store, q: &mut EventEntities)
    requires
        old(q).wf(),
    ensures
        final(q).wf(),
        final(q)@ == old(q)@.advanced(),
        final(store)@ == destroyed_all(old(store)@, old(q)@.older),
{
    let ids = q.advance();
    let ghost all = ids@;
    proof {
        assert(all.skip(0) =~= all);
    }
    let n = ids.len();
    let mut i: usize = 0;
    while i < n
        invariant
            i <= n,
            destroyed_all(store@, all.skip(i as int)) == destroyed_all(old(store)@, all),
        decreases n - i,
    {
        let ghost rest = all.skip(i as int);
        proof {
            assert(rest[0] == all[i as int]);
            assert(rest.skip(1) =~= all.skip(i + 1));
        }
        store.destroy(ids[i]);
        i = i + 1;
    }
    proof {
        assert(all.skip(n as int) =~= Seq::<EntityId>::empty());
    }
}

/// Law: the full retention cycle of one event. Sent at count `k`, it is at
/// once visible to every reader positioned at or before `k`; it is still
/// visible to them after one `advance`; the second `advance` is the one
/// that hands it out for reclamation, and after `update_events` destroys
/// that batch the entity is no longer live. Memory is thus bounded by two
/// cycles' worth of events, and no reader that existed before the send can
/// miss the event for a full cycle.
pub proof fn lemma_retention_cycle(m: StoreModel, q: QueueModel, id: EntityId, last: nat)
    requires
        q.wf(),
        last <= q.send_count,
    ensures
        crate::reader::unread_of(q.sent(id), last).last() == id,
        crate::reader::unread_of(q.sent(id).advanced(), last).last() == id,
        q.sent(id).advanced().advanced().oldest_count > q.send_count,
        q.sent(id).advanced().older.last() == id,
        !destroyed_all(m, q.sent(id).advanced().older).live(id),
{
    crate::reader::lemma_sent_event_visible(q, id, last);
    assert(q.sent(id).advanced().retained() =~= q.newer.push(id));
    let ids = q.sent(id).advanced().older;
    lemma_destroyed_all_dead(m, ids);
    assert(ids[ids.len() - 1] == id);
}

} // verus!
