//! Cursor-based readers over the event queue.
//!
//! A reader is nothing but a position in the send count. Its unread suffix
//! is computed from the queue's counters, so any number of independent
//! readers can consume the same queue, each at its own pace. A reader that
//! has fallen behind the retained history is clamped to the oldest retained
//! event instead of underflowing.

use vstd::prelude::*;

use crate::id::EntityId;
use crate::queue::{EventEntities, QueueModel};

verus! {

/// The send count from which a reader at position `last` actually reads:
/// its own position, clamped into the retained window.
pub open spec fn first_unread(q: QueueModel, last: nat) -> nat {
    if last < q.oldest_count {
        q.oldest_count
    } else if last > q.send_count {
        q.send_count
    } else {
        last
    }
}

/// The unread suffix a reader at position `last` sees: every retained event
/// sent at count `first_unread` or later, in send order.
pub open spec fn unread_of(q: QueueModel, last: nat) -> Seq<EntityId> {
    q.retained().skip(first_unread(q, last) - q.oldest_count)
}

/// A per-consumer cursor into the event queue.
pub struct EventEntityReader {
    pub last_seen_count: usize,
}

impl EventEntityReader {
    /// A reader that starts at the given send count: it will see exactly the
    /// events sent from that count on.
    pub fn at_count(count: usize) -> (r: EventEntityReader)
        ensures
            r.last_seen_count == count,
    {
        EventEntityReader { last_seen_count: count }
    }

    /// A reader over everything the queue still retains and everything sent
    /// later.
    pub fn new() -> (r: EventEntityReader)
        ensures
            r.last_seen_count == 0,
    {
        EventEntityReader { last_seen_count: 0 }
    }

    /// Returns the unread suffix, oldest first, and advances the cursor past
    /// everything returned. The cursor moves by exactly the number of events
    /// between it and the send counter, whether or not they are still
    /// retained, so bulk consumption and one-by-one consumption agree.
    pub fn read(&mut self, q: &EventEntities) -> (r: Vec<EntityId>)
        requires
            q.wf(),
        ensures
            r@ == unread_of(q@, old(self).last_seen_count as nat),
            final(self).last_seen_count == if old(self).last_seen_count > q.send_count {
                old(self).last_seen_count
            } else {
                q.send_count
            },
    {
        let a_len = q.events_a.events.len();
        let b_len = q.events_b.events.len();
        let total: usize = a_len + b_len;
        let oldest = q.events_a.start_count;
        let last = self.last_seen_count;
        // Offset into the retained history, clamped at both ends.
        let start: usize = if last < oldest {
            0
        } else if last - oldest > total {
            total
        } else {
            last - oldest
        };
        let mut r: Vec<EntityId> = Vec::new();
        let mut i: usize = start;
        while i < total
            invariant
                q.wf(),
                start <= i <= total,
                a_len == q@.older.len(),
                total == q@.retained().len(),
                r@ == q@.retained().subrange(start as int, i as int),
            decreases total - i,
        {
            if i < a_len {
                r.push(q.events_a.events[i]);
            } else {
                r.push(q.events_b.events[i - a_len]);
            }
            proof {
                assert(q@.retained().subrange(start as int, i + 1)
                    =~= q@.retained().subrange(start as int, i as int).push(q@.retained()[i as int]));
            }
            i = i + 1;
        }
        if last < q.send_count {
            self.last_seen_count = q.send_count;
        }
        proof {
            assert(r@ =~= unread_of(q@, last as nat));
        }
        r
    }

    /// The number of unread events, computed from the counters alone.
    pub fn len(&self, q: &EventEntities) -> (r: usize)
        requires
            q.wf(),
        ensures
            r == unread_of(q@, self.last_seen_count as nat).len(),
    {
        let total = q.events_a.events.len() + q.events_b.events.len();
        let oldest = q.events_a.start_count;
        let last = self.last_seen_count;
        if last < oldest {
            total
        } else if last - oldest > total {
            0
        } else {
            total - (last - oldest)
        }
    }

    /// True if the reader has nothing unread.
    pub fn is_empty(&self, q: &EventEntities) -> (r: bool)
        requires
            q.wf(),
        ensures
            r == (unread_of(q@, self.last_seen_count as nat).len() == 0),
    {
        self.len(q) == 0
    }

    /// Moves the cursor past everything currently sent without yielding it.
    pub fn clear(&mut self, q: &EventEntities)
        requires
            q.wf(),
        ensures
            final(self).last_seen_count == q.send_count,
            unread_of(q@, final(self).last_seen_count as nat).len() == 0,
    {
        self.last_seen_count = q.send_count;
    }
}

impl Default for EventEntityReader {
    /// A reader over everything the queue still retains and everything sent
    /// later.
    fn default() -> (r: EventEntityReader)
        ensures
            r.last_seen_count == 0,
    {
        EventEntityReader::new()
    }
}

/// Law: the unread suffix is exactly the retained events sent at the
/// reader's (clamped) position or later, one slot per send count, in send
/// order. Undercounting would re-deliver events; overcounting would drop
/// them silently.
pub proof fn lemma_unread_indexes(q: QueueModel, last: nat)
    requires
        q.wf(),
    ensures
        unread_of(q, last).len() == q.send_count - first_unread(q, last),
        forall|i: int|
            0 <= i < unread_of(q, last).len() ==> unread_of(q, last)[i] == q.event_at(
                first_unread(q, last) + i,
            ),
{
}

/// Law: bulk consumption matches one-by-one consumption. The number of
/// unread events equals `min(send_count - last_seen, retained)`, computed
/// from the counters alone, for any reader position up to the send counter
/// — a reader that has fallen behind the retained history catches up to the
/// oldest retained event rather than underflowing.
pub proof fn lemma_unread_len_formula(q: QueueModel, last: nat)
    requires
        q.wf(),
        last <= q.send_count,
    ensures
        unread_of(q, last).len() == if q.send_count - last <= q.retained().len() {
            q.send_count - last
        } else {
            q.retained().len() as int
        },
{
}

/// Law: an event just sent is immediately at the end of the unread suffix
/// of every reader positioned at or before the send counter.
pub proof fn lemma_sent_event_visible(q: QueueModel, id: EntityId, last: nat)
    requires
        q.wf(),
        last <= q.send_count,
    ensures
        unread_of(q.sent(id), last).len() > 0,
        unread_of(q.sent(id), last).last() == id,
{
    assert(q.sent(id).retained() =~= q.retained().push(id));
}

/// Law: sending more events never changes what a reader was already owed;
/// it only appends to the unread suffix.
pub proof fn lemma_send_preserves_unread(q: QueueModel, id: EntityId, last: nat)
    requires
        q.wf(),
        last <= q.send_count,
    ensures
        unread_of(q.sent(id), last) == unread_of(q, last).push(id),
{
    assert(q.sent(id).retained() =~= q.retained().push(id));
    assert(unread_of(q.sent(id), last) =~= unread_of(q, last).push(id));
}

/// Law: one `advance` keeps every event of the newer generation retained
/// and readable: a reader positioned at or before such an event's send
/// count still finds it in its unread suffix, at the same send count.
pub proof fn lemma_advance_keeps_newer_visible(q: QueueModel, k: int, last: nat)
    requires
        q.wf(),
        q.newer_start() <= k < q.send_count,
        last <= k,
    ensures
        q.advanced().wf(),
        q.advanced().event_at(k) == q.event_at(k),
        unread_of(q.advanced(), last)[k - first_unread(q.advanced(), last)] == q.event_at(k),
        0 <= k - first_unread(q.advanced(), last) < unread_of(q.advanced(), last).len(),
{
    assert(q.advanced().retained() =~= q.newer);
    assert(q.event_at(k) == q.newer[k - q.newer_start()]);
    lemma_unread_indexes(q.advanced(), last);
}

/// Law: the second `advance` after a send hands the event out for
/// reclamation, and afterwards it is no longer retained: its send count
/// falls below the oldest retained count, so memory is bounded by two
/// cycles' worth of events.
pub proof fn lemma_second_advance_reclaims(q: QueueModel, id: EntityId)
    requires
        q.wf(),
    ensures
        q.sent(id).advanced().older.last() == id,
        q.sent(id).advanced().advanced().oldest_count > q.send_count,
        q.sent(id).advanced().advanced().wf(),
{
}

/// Law: two readers over the same queue never observe shared events in
/// different orders: the later reader's unread suffix is exactly a suffix
/// of the earlier reader's.
pub proof fn lemma_readers_agree(q: QueueModel, l1: nat, l2: nat)
    requires
        q.wf(),
        l1 <= l2,
    ensures
        unread_of(q, l2) == unread_of(q, l1).skip(
            first_unread(q, l2) - first_unread(q, l1),
        ),
{
    assert(unread_of(q, l2) =~= unread_of(q, l1).skip(
        first_unread(q, l2) - first_unread(q, l1),
    ));
}

/// Law: a reader that has caught up to the send counter has nothing unread:
/// each event is delivered at most once per reader.
pub proof fn lemma_read_exactly_once(q: QueueModel, last: nat)
    requires
        q.wf(),
        last >= q.send_count,
    ensures
        unread_of(q, last).len() == 0,
{
}

} // verus!
