//! The dispatch engine: hierarchy propagation and callback execution.
//!
//! Each pass reads the unread events, derives propagated events for every
//! ancestor of a targeted root event, then matches every unread event
//! against the registered listener predicates and runs each matching
//! callback under the take-and-reinsert protocol: the callback record is
//! physically removed from the store for the duration of its own
//! execution, so a reentrant dispatch can never run it concurrently with
//! itself, and the callback cannot observe itself in the store.

use vstd::prelude::*;

use crate::callback::{EventType, Guard, ListenerInput, Selector};
use crate::id::{EntityId, PropagatedEvent, Target};
use crate::listener::{guard_holds, run_ops};
use crate::queue::{event_sent, send_event, EventEntities, QueueModel};
use crate::reader::{unread_of, EventEntityReader};
use crate::store::{EventBundle, Store, StoreModel};

verus! {

/// True if every entity the event dispatch would touch is still live: the
/// root event record, and for a propagated event the derivative too.
pub open spec fn entities_contains(m: StoreModel, et: EventType) -> bool {
    match et {
        EventType::Propagated { propagated, event } => m.live(propagated) && m.live(event),
        EventType::Event(event) => m.live(event),
    }
}

/// The store after the `Target` values of a propagated derivative and its
/// root event are exchanged. While a callback for a propagated event runs,
/// the root record carries the derivative's target, so the callback reads
/// the target an ancestor-level handler should see; the exchange is undone
/// after the call. A root event, or a pair where either record is dead,
/// lacks a `Target`, or coincides, is left unchanged.
pub open spec fn swap_targets(m: StoreModel, et: EventType) -> StoreModel {
    match et {
        EventType::Event(_) => m,
        EventType::Propagated { propagated, event } => if entities_contains(m, et) && propagated
            != event {
            match (m.target_of(propagated), m.target_of(event)) {
                (Some(tp), Some(te)) => m.target_set(propagated, te).target_set(event, tp),
                _ => m,
            }
        } else {
            m
        },
    }
}

impl EventType {
    /// Exchanges the `Target` values of a propagated derivative and its
    /// root event; returns whether an exchange happened.
    pub fn swap_target(&self, store: &mut Store) -> (r: bool)
        ensures
            final(store)@ == swap_targets(old(store)@, *self),
            r == (match *self {
                EventType::Propagated { propagated, event } => entities_contains(
                    old(store)@,
                    *self,
                ) && propagated != event && old(store)@.target_of(propagated) is Some
                    && old(store)@.target_of(event) is Some,
                EventType::Event(_) => false,
            }),
    {
        match self {
            EventType::Event(_) => false,
            EventType::Propagated { propagated, event } => {
                if store.contains(*propagated) && store.contains(*event) && *propagated != *event {
                    match (store.target_of(*propagated), store.target_of(*event)) {
                        (Some(tp), Some(te)) => {
                            store.set_target(*propagated, te);
                            store.set_target(*event, tp);
                            true
                        },
                        _ => false,
                    }
                } else {
                    false
                }
            },
        }
    }
}

/// One deferred callback execution against one event: re-validate that the
/// event is still live, take the callback off its owner, swap the target
/// in, run the program, swap the target back, and reinsert the callback
/// (now `Ready`) if its owner still exists.
pub open spec fn run_deferred(
    m: StoreModel,
    qm: QueueModel,
    cb: EntityId,
    et: EventType,
) -> (StoreModel, QueueModel) {
    if !entities_contains(m, et) {
        (m, qm)
    } else {
        match m.callback_of(cb) {
            None => (m, qm),
            Some(inner) => {
                let m1 = swap_targets(m.callback_taken(cb), et);
                let r = run_ops(m1, qm, ListenerInput { event_type: et }, cb, inner.ops_spec());
                let m2 = swap_targets(r.0, et).callback_put(cb, inner.readied());
                (m2, r.1)
            },
        }
    }
}

/// Runs one deferred callback execution.
pub fn run_deferred_action(store: &mut Store, q: &mut EventEntities, cb: EntityId, et: EventType)
    requires
        old(q).wf(),
    ensures
        final(q).wf(),
        (final(store)@, final(q)@) == run_deferred(old(store)@, old(q)@, cb, et),
{
    let still_live = match et {
        EventType::Propagated { propagated, event } => store.contains(propagated)
            && store.contains(event),
        EventType::Event(event) => store.contains(event),
    };
    if !still_live {
        return ;
    }
    match store.take_callback(cb) {
        None => {
            proof {
                assert(store@ =~~= old(store)@);
            }
        },
        Some(inner) => {
            et.swap_target(store);
            let input = ListenerInput { event_type: et };
            let readied = inner.run(store, q, input, cb);
            et.swap_target(store);
            store.insert_callback(cb, readied);
        },
    }
}

/// Law: at most one execution of a callback is ever in flight. The store
/// state a callback program is interpreted against — after the take and
/// the target swap of `run_deferred` — holds no callback record on the
/// owner: a callback that reads itself back from its own owning entity
/// mid-execution does not find itself present, so a reentrant dispatch can
/// never run it concurrently with itself.
pub proof fn lemma_callback_absent_during_run(
    m: StoreModel,
    cb: EntityId,
    et: EventType,
)
    requires
        entities_contains(m, et),
        m.callback_of(cb) is Some,
    ensures
        ({
            let m1 = swap_targets(m.callback_taken(cb), et);
            &&& m1.callback_of(cb) is None
            &&& !guard_holds(
                m1,
                ListenerInput { event_type: et },
                cb,
                Guard::CallbackPresent(Selector::Owner),
            )
            &&& guard_holds(
                m1,
                ListenerInput { event_type: et },
                cb,
                Guard::CallbackAbsent(Selector::Owner),
            )
        }),
{
    let mt = m.callback_taken(cb);
    assert(mt.callback_of(cb) is None);
    assert(mt.live(cb));
    let m1 = swap_targets(mt, et);
    assert(m1.callback_of(cb) is None);
    assert(m1.live(cb));
}

/// Whether a candidate registration is hierarchy-compatible with the
/// event's resolved target: an event without a target matches everything,
/// an unparented registration is a global binding, and a parented one
/// fires only when its parent is the (still live) resolved target.
pub open spec fn scope_matches(m: StoreModel, target_opt: Option<EntityId>, c: EntityId) -> bool {
    match target_opt {
        None => true,
        Some(t) => match m.parent_of(c) {
            None => true,
            Some(p) => p == t && m.live(t),
        },
    }
}

/// Whether entity `c` is a matching callback registration for the event:
/// it is live, carries a predicate accepting the root event record's
/// current attribute set, and is hierarchy-compatible with the target.
pub open spec fn is_candidate(
    m: StoreModel,
    et: EventType,
    target_opt: Option<EntityId>,
    c: EntityId,
) -> bool {
    match m.ident_of(c) {
        Some(pred) => scope_matches(m, target_opt, c) && pred.matches(m, et.spec_id()),
        None => false,
    }
}

/// The matching registrations among the first `n` entities, in id order.
pub open spec fn candidates_up_to(
    m: StoreModel,
    et: EventType,
    target_opt: Option<EntityId>,
    n: nat,
) -> Seq<EntityId>
    decreases n,
{
    if n == 0 {
        Seq::empty()
    } else {
        candidates_up_to(m, et, target_opt, (n - 1) as nat) + (if is_candidate(
            m,
            et,
            target_opt,
            EntityId((n - 1) as usize),
        ) {
            seq![EntityId((n - 1) as usize)]
        } else {
            Seq::empty()
        })
    }
}

/// Decides whether entity `c` is a matching callback registration.
pub fn is_candidate_exec(
    store: &Store,
    et: EventType,
    target_opt: Option<EntityId>,
    c: EntityId,
) -> (r: bool)
    ensures
        r == is_candidate(store@, et, target_opt, c),
{
    match store.get_ident(c) {
        None => false,
        Some(ci) => {
            let scope_ok = match target_opt {
                None => true,
                Some(t) => match store.parent_of(c) {
                    None => true,
                    Some(p) => p == t && store.contains(t),
                },
            };
            scope_ok && ci.entity_contains(store, et.id())
        },
    }
}

/// The deferred executions of a whole match list, in order.
pub open spec fn run_deferred_list(
    m: StoreModel,
    qm: QueueModel,
    et: EventType,
    cbs: Seq<EntityId>,
) -> (StoreModel, QueueModel)
    decreases cbs.len(),
{
    if cbs.len() == 0 {
        (m, qm)
    } else {
        let r = run_deferred(m, qm, cbs[0], et);
        run_deferred_list(r.0, r.1, et, cbs.skip(1))
    }
}

/// Dispatch of one unread event: skip it unless it is live; read its
/// target; treat it as a propagated derivative if it carries a propagation
/// origin; skip it if its root record is gone; then match every
/// registration and run the matches in id order.
pub open spec fn process_event(
    m: StoreModel,
    qm: QueueModel,
    eid: EntityId,
) -> (StoreModel, QueueModel) {
    if !m.live(eid) {
        (m, qm)
    } else {
        let target_opt = m.target_of(eid);
        let et = match m.propagated_from_of(eid) {
            Some(root) => EventType::Propagated { propagated: eid, event: root },
            None => EventType::Event(eid),
        };
        if !m.live(et.spec_id()) {
            (m, qm)
        } else {
            run_deferred_list(m, qm, et, candidates_up_to(m, et, target_opt, m.recs.len()))
        }
    }
}

/// Dispatch of a list of unread events, in send order.
pub open spec fn process_events(
    m: StoreModel,
    qm: QueueModel,
    ids: Seq<EntityId>,
) -> (StoreModel, QueueModel)
    decreases ids.len(),
{
    if ids.len() == 0 {
        (m, qm)
    } else {
        let r = process_event(m, qm, ids[0]);
        process_events(r.0, r.1, ids.skip(1))
    }
}

/// Matches every unread event against the registered listener predicates
/// and runs each matching callback, deferred per event so that matching
/// never observes a mutation made by another match's callback for the same
/// event. Events sent by callbacks land in the queue unread, to be picked
/// up by a later pass.
#[verifier::loop_isolation(false)]
pub fn run_callbacks(store: &mut Store, q: &mut EventEntities, reader: &mut EventEntityReader)
    requires
        old(q).wf(),
    ensures
        final(q).wf(),
        (final(store)@, final(q)@) == process_events(
            old(store)@,
            old(q)@,
            unread_of(old(q)@, old(reader).last_seen_count as nat),
        ),
        final(reader).last_seen_count == if old(reader).last_seen_count > old(q).send_count {
            old(reader).last_seen_count
        } else {
            old(q).send_count
        },
{
    let ids = reader.read(q);
    let ghost all = ids@;
    proof {
        assert(all.skip(0) =~= all);
    }
    let n = ids.len();
    let mut i: usize = 0;
    while i < n
        invariant
            i <= n,
            q.wf(),
            process_events(store@, q@, all.skip(i as int)) == process_events(
                old(store)@,
                old(q)@,
                all,
            ),
        decreases n - i,
    {
        let ghost rest = all.skip(i as int);
        proof {
            assert(rest[0] == all[i as int]);
            assert(rest.skip(1) =~= all.skip(i + 1));
        }
        let eid = ids[i];
        if store.contains(eid) {
            let target_opt = store.target_of(eid);
            let et = match store.propagated_from(eid) {
                Some(root) => EventType::Propagated { propagated: eid, event: root },
                None => EventType::Event(eid),
            };
            if store.contains(et.id()) {
                // Matching phase: read-only scan over every entity, in id
                // order, collecting the registrations that apply.
                let ghost m_event = store@;
                let nslots = store.slot_count();
                let mut cands: Vec<EntityId> = Vec::new();
                let mut c: usize = 0;
                while c < nslots
                    invariant
                        c <= nslots,
                        store@ == m_event,
                        cands@ == candidates_up_to(m_event, et, target_opt, c as nat),
                    decreases nslots - c,
                {
                    let cand = EntityId(c);
                    if is_candidate_exec(store, et, target_opt, cand) {
                        cands.push(cand);
                        proof {
                            assert(cands@ =~= candidates_up_to(
                                m_event,
                                et,
                                target_opt,
                                (c + 1) as nat,
                            ));
                        }
                    } else {
                        proof {
                            assert(cands@ =~= candidates_up_to(
                                m_event,
                                et,
                                target_opt,
                                (c + 1) as nat,
                            ));
                        }
                    }
                    c = c + 1;
                }
                // Execution phase: run the deferred actions in match order.
                let ghost all_cands = cands@;
                let ghost q_event = q@;
                proof {
                    assert(all_cands.skip(0) =~= all_cands);
                }
                let ncands = cands.len();
                let mut j: usize = 0;
                while j < ncands
                    invariant
                        j <= ncands,
                        q.wf(),
                        run_deferred_list(store@, q@, et, all_cands.skip(j as int))
                            == run_deferred_list(m_event, q_event, et, all_cands),
                    decreases ncands - j,
                {
                    let ghost crest = all_cands.skip(j as int);
                    proof {
                        assert(crest[0] == all_cands[j as int]);
                        assert(crest.skip(1) =~= all_cands.skip(j + 1));
                    }
                    run_deferred_action(store, q, cands[j], et);
                    j = j + 1;
                }
                proof {
                    assert(all_cands.skip(ncands as int) =~= Seq::<EntityId>::empty());
                }
            }
        }
        i = i + 1;
    }
    proof {
        assert(all.skip(n as int) =~= Seq::<EntityId>::empty());
    }
}

/// The ancestors of `t`, nearest first, walking parent links for at most
/// `fuel` steps. With an acyclic hierarchy the ancestors are pairwise
/// distinct, so any fuel at least the number of entities covers the whole
/// chain; a cyclic hierarchy is a caller contract violation and merely
/// truncates the walk.
pub open spec fn ancestor_chain(m: StoreModel, t: EntityId, fuel: nat) -> Seq<EntityId>
    decreases fuel,
{
    if fuel == 0 {
        Seq::empty()
    } else {
        match m.parent_of(t) {
            None => Seq::empty(),
            Some(p) => seq![p] + ancestor_chain(m, p, (fuel - 1) as nat),
        }
    }
}

/// Law: the shape of the bubble path. The ancestor chain starts at the
/// target's parent, each following entry is the parent of the one before,
/// and — whenever the fuel did not cut the walk short, as it never does for
/// an acyclic hierarchy walked with fuel at least the entity count — the
/// chain ends at the first entity with no parent. Together with
/// `propagate_events`' contract this pins the bubble order: one derived
/// event per ancestor, nearest ancestor first.
pub proof fn lemma_ancestor_chain_links(m: StoreModel, t: EntityId, fuel: nat)
    ensures
        ({
            let chain = ancestor_chain(m, t, fuel);
            &&& chain.len() <= fuel
            &&& (chain.len() > 0 ==> m.parent_of(t) == Some(chain[0]))
            &&& (fuel > 0 && chain.len() == 0 ==> m.parent_of(t) is None)
            &&& (forall|i: int|
                0 <= i < chain.len() - 1 ==> m.parent_of(chain[i]) == Some(chain[i + 1]))
            &&& (chain.len() < fuel ==> m.parent_of(
                if chain.len() == 0 {
                    t
                } else {
                    chain.last()
                },
            ) is None)
        }),
    decreases fuel,
{
    if fuel > 0 {
        match m.parent_of(t) {
            None => {},
            Some(p) => {
                lemma_ancestor_chain_links(m, p, (fuel - 1) as nat);
                let sub = ancestor_chain(m, p, (fuel - 1) as nat);
                let chain = ancestor_chain(m, t, fuel);
                assert(chain =~= seq![p] + sub);
                assert forall|i: int| 0 <= i < chain.len() - 1 implies m.parent_of(chain[i])
                    == Some(chain[i + 1]) by {
                    if i > 0 {
                        assert(chain[i] == sub[i - 1]);
                        assert(chain[i + 1] == sub[i]);
                    }
                }
            },
        }
    }
}

/// The derived events for one root event: one fresh event entity per
/// ancestor, in chain order, each carrying `Target(ancestor)` and
/// `PropagatedFrom(root)`. A send that would overflow a machine counter
/// changes nothing.
pub open spec fn send_derived(
    m: StoreModel,
    qm: QueueModel,
    root: EntityId,
    ancestors: Seq<EntityId>,
) -> (StoreModel, QueueModel)
    decreases ancestors.len(),
{
    if ancestors.len() == 0 {
        (m, qm)
    } else {
        let r = if m.recs.len() < usize::MAX && qm.send_count < usize::MAX {
            event_sent(m, qm, Some(ancestors[0]), Some(root), Set::empty(), Map::empty())
        } else {
            (m, qm)
        };
        send_derived(r.0, r.1, root, ancestors.skip(1))
    }
}

/// Propagation of one unread event: only a live root event carrying a
/// `Target` propagates, one derived event per ancestor of its target.
pub open spec fn propagate_one(
    m: StoreModel,
    qm: QueueModel,
    eid: EntityId,
) -> (StoreModel, QueueModel) {
    if m.live(eid) && m.propagated_from_of(eid) is None {
        match m.target_of(eid) {
            Some(t) => send_derived(m, qm, eid, ancestor_chain(m, t, m.recs.len())),
            None => (m, qm),
        }
    } else {
        (m, qm)
    }
}

/// Propagation of a list of unread events, in send order.
pub open spec fn propagate_list(
    m: StoreModel,
    qm: QueueModel,
    ids: Seq<EntityId>,
) -> (StoreModel, QueueModel)
    decreases ids.len(),
{
    if ids.len() == 0 {
        (m, qm)
    } else {
        let r = propagate_one(m, qm, ids[0]);
        propagate_list(r.0, r.1, ids.skip(1))
    }
}

/// For every freshly unread root event carrying a `Target`, walks the
/// target's ancestor chain and enqueues one derived event per ancestor,
/// tagged with the ancestor as target and the root as origin.
#[verifier::loop_isolation(false)]
pub fn propagate_events(store: &mut Store, q: &mut EventEntities, reader: &mut EventEntityReader)
    requires
        old(q).wf(),
    ensures
        final(q).wf(),
        (final(store)@, final(q)@) == propagate_list(
            old(store)@,
            old(q)@,
            unread_of(old(q)@, old(reader).last_seen_count as nat),
        ),
        final(reader).last_seen_count == if old(reader).last_seen_count > old(q).send_count {
            old(reader).last_seen_count
        } else {
            old(q).send_count
        },
{
    let ids = reader.read(q);
    let ghost all = ids@;
    proof {
        assert(all.skip(0) =~= all);
    }
    let n = ids.len();
    let mut i: usize = 0;
    while i < n
        invariant
            i <= n,
            q.wf(),
            propagate_list(store@, q@, all.skip(i as int)) == propagate_list(
                old(store)@,
                old(q)@,
                all,
            ),
        decreases n - i,
    {
        let ghost rest = all.skip(i as int);
        proof {
            assert(rest[0] == all[i as int]);
            assert(rest.skip(1) =~= all.skip(i + 1));
        }
        let eid = ids[i];
        if store.contains(eid) && store.propagated_from(eid).is_none() {
            if let Some(t) = store.target_of(eid) {
                // Collect the ancestor chain before sending anything, so
                // the walk reads the hierarchy as it stood for this event.
                let ghost m_event = store@;
                let nslots = store.slot_count();
                let mut chain: Vec<EntityId> = Vec::new();
                let mut cur = t;
                let mut fuel: usize = nslots;
                let mut done = false;
                while !done && fuel > 0
                    invariant
                        store@ == m_event,
                        ancestor_chain(m_event, t, nslots as nat) == chain@ + (if done {
                            Seq::<EntityId>::empty()
                        } else {
                            ancestor_chain(m_event, cur, fuel as nat)
                        }),
                    decreases fuel, (if done { 0int } else { 1int }),
                {
                    match store.parent_of(cur) {
                        None => {
                            done = true;
                            proof {
                                assert(ancestor_chain(m_event, cur, fuel as nat)
                                    =~= Seq::<EntityId>::empty());
                                assert(chain@ + Seq::<EntityId>::empty() =~= chain@);
                            }
                        },
                        Some(p) => {
                            proof {
                                assert(ancestor_chain(m_event, cur, fuel as nat) =~= seq![p]
                                    + ancestor_chain(m_event, p, (fuel - 1) as nat));
                                assert(chain@ + (seq![p] + ancestor_chain(
                                    m_event,
                                    p,
                                    (fuel - 1) as nat,
                                )) =~= chain@.push(p) + ancestor_chain(m_event, p, (fuel - 1) as nat));
                            }
                            chain.push(p);
                            cur = p;
                            fuel = fuel - 1;
                        },
                    }
                }
                proof {
                    if !done {
                        assert(ancestor_chain(m_event, cur, fuel as nat)
                            =~= Seq::<EntityId>::empty());
                    }
                    assert(chain@ + Seq::<EntityId>::empty() =~= chain@);
                    assert(ancestor_chain(m_event, t, nslots as nat) == chain@);
                }
                // Send one derived event per ancestor, in chain order.
                let ghost all_anc = chain@;
                let ghost q_event = q@;
                proof {
                    assert(all_anc.skip(0) =~= all_anc);
                }
                let nanc = chain.len();
                let mut j: usize = 0;
                while j < nanc
                    invariant
                        j <= nanc,
                        q.wf(),
                        send_derived(store@, q@, eid, all_anc.skip(j as int)) == send_derived(
                            m_event,
                            q_event,
                            eid,
                            all_anc,
                        ),
                    decreases nanc - j,
                {
                    let ghost arest = all_anc.skip(j as int);
                    proof {
                        assert(arest[0] == all_anc[j as int]);
                        assert(arest.skip(1) =~= all_anc.skip(j + 1));
                    }
                    if store.slot_count() < usize::MAX && q.send_count < usize::MAX {
                        let bundle = EventBundle {
                            tags: Vec::new(),
                            attrs: Vec::new(),
                            target: Some(Target(chain[j])),
                            propagated_from: Some(PropagatedEvent(eid)),
                        };
                        proof {
                            assert(Seq::<u64>::empty().to_set() =~= Set::<u64>::empty());
                        }
                        send_event(store, q, bundle);
                    }
                    j = j + 1;
                }
                proof {
                    assert(all_anc.skip(nanc as int) =~= Seq::<EntityId>::empty());
                }
            }
        }
        i = i + 1;
    }
    proof {
        assert(all.skip(n as int) =~= Seq::<EntityId>::empty());
    }
}

/// The per-system cursors one listener pass uses: propagation and callback
/// dispatch each read the queue through their own independent reader.
pub struct ListenerReaders {
    pub propagate: EventEntityReader,
    pub callbacks: EventEntityReader,
}

impl ListenerReaders {
    /// Readers positioned at the start of history.
    pub fn new() -> (r: ListenerReaders)
        ensures
            r.propagate.last_seen_count == 0,
            r.callbacks.last_seen_count == 0,
    {
        ListenerReaders { propagate: EventEntityReader::new(), callbacks: EventEntityReader::new() }
    }
}

/// The whole state one dispatch pass acts on.
pub ghost struct PassState {
    pub m: StoreModel,
    pub qm: QueueModel,
    pub prop_last: nat,
    pub cb_last: nat,
}

/// The new cursor position after a read: past everything sent, unless the
/// cursor was already beyond it.
pub open spec fn caught_up(last: nat, send_count: nat) -> nat {
    if last > send_count {
        last
    } else {
        send_count
    }
}

/// One dispatch pass: propagate the unread root events, then match and run
/// callbacks for every unread event, each phase through its own cursor.
pub open spec fn listener_pass(s: PassState) -> PassState {
    let r1 = propagate_list(s.m, s.qm, unread_of(s.qm, s.prop_last));
    let prop_last2 = caught_up(s.prop_last, s.qm.send_count);
    let r2 = process_events(r1.0, r1.1, unread_of(r1.1, s.cb_last));
    let cb_last2 = caught_up(s.cb_last, r1.1.send_count);
    PassState { m: r2.0, qm: r2.1, prop_last: prop_last2, cb_last: cb_last2 }
}

/// Passes repeated until one adds no new event, or the pass budget runs
/// out; the flag says whether the fixed point was reached.
pub open spec fn schedule_fixpoint(s: PassState, fuel: nat) -> (PassState, bool)
    decreases fuel,
{
    if fuel == 0 {
        (s, false)
    } else {
        let s2 = listener_pass(s);
        if s2.qm.send_count == s.qm.send_count {
            (s2, true)
        } else {
            schedule_fixpoint(s2, (fuel - 1) as nat)
        }
    }
}

/// The pass state a store, queue and reader pair stand for.
pub open spec fn pass_state_of(
    store: Store,
    q: EventEntities,
    readers: ListenerReaders,
) -> PassState {
    PassState {
        m: store@,
        qm: q@,
        prop_last: readers.propagate.last_seen_count as nat,
        cb_last: readers.callbacks.last_seen_count as nat,
    }
}

/// Runs dispatch passes (propagation, then callbacks) until a pass adds no
/// new event to the queue — the fixed point of the cascade — or until
/// `max_passes` further passes have been run. Returns true if the fixed
/// point was reached. A callback that perpetually re-triggers itself
/// exhausts any budget; quiescence is the callers' responsibility.
#[verifier::loop_isolation(false)]
pub fn run_event_listener_schedule(
    store: &mut Store,
    q: &mut EventEntities,
    readers: &mut ListenerReaders,
    max_passes: usize,
) -> (settled: bool)
    requires
        old(q).wf(),
    ensures
        final(q).wf(),
        (pass_state_of(*final(store), *final(q), *final(readers)), settled) == schedule_fixpoint(
            pass_state_of(*old(store), *old(q), *old(readers)),
            max_passes as nat,
        ),
{
    let ghost s0 = pass_state_of(*store, *q, *readers);
    let mut passes: usize = 0;
    let mut settled = false;
    while passes < max_passes && !settled
        invariant
            passes <= max_passes,
            q.wf(),
            !settled ==> schedule_fixpoint(
                pass_state_of(*store, *q, *readers),
                (max_passes - passes) as nat,
            ) == schedule_fixpoint(s0, max_passes as nat),
            settled ==> (pass_state_of(*store, *q, *readers), true) == schedule_fixpoint(
                s0,
                max_passes as nat,
            ),
        decreases max_passes - passes, (if settled { 0int } else { 1int }),
    {
        let ghost s_before = pass_state_of(*store, *q, *readers);
        let before = q.send_count;
        propagate_events(store, q, &mut readers.propagate);
        run_callbacks(store, q, &mut readers.callbacks);
        proof {
            assert(pass_state_of(*store, *q, *readers) == listener_pass(s_before));
        }
        if q.send_count == before {
            settled = true;
        } else {
            passes = passes + 1;
        }
    }
    settled
}

} // verus!
