//! A damage pipeline built on the event bus: attack events subtract from a
//! target's health, a death enqueues a kill event in the same cycle, and
//! kill events despawn their target with its whole hierarchy subtree. The
//! driving schedule repeats attack and kill phases until a pass adds no new
//! event, so a cascade settles within one invocation.

use vstd::prelude::*;

use crate::dispatch::{listener_pass, ListenerReaders, PassState};
use crate::id::{EntityId, Target};
use crate::queue::{event_sent, send_event, EventEntities, QueueModel};
use crate::reader::{unread_of, EventEntityReader};
use crate::store::{map_of, EventBundle, Store, StoreModel};

verus! {

broadcast use vstd::seq_lib::lemma_seq_contains_after_push;

/// Attribute key: how much damage an attack event deals.
pub const DAMAGE_ATTR: u64 = 101;

/// Attribute key: an entity's current health.
pub const HEALTH_VALUE_ATTR: u64 = 102;

/// Attribute key: an entity's maximum health.
pub const HEALTH_MAX_ATTR: u64 = 103;

/// Attribute key on a kill event: the attack event that caused it.
pub const ATTACK_ATTR: u64 = 104;

/// Attribute key: the entity that instigated an attack.
pub const INSTIGATOR_ATTR: u64 = 105;

/// Tag marking a kill event.
pub const KILL_TAG: u64 = 106;

/// An entity's health: its current and maximum values.
#[derive(Clone, Copy, PartialEq, Eq, Structural, Debug)]
pub struct Health {
    pub value: u32,
    pub max: u32,
}

impl Health {
    /// Full health at the given maximum.
    pub fn new(health: u32) -> (r: Health)
        ensures
            r.value == health,
            r.max == health,
    {
        Health { value: health, max: health }
    }

    /// Restores health to the maximum.
    pub fn reset(&mut self)
        ensures
            final(self).value == old(self).max,
            final(self).max == old(self).max,
    {
        self.value = self.max;
    }

    /// Shifts health by a signed amount, clamped into `[0, max]`.
    pub fn shift(&mut self, val: i64)
        ensures
            final(self).value == if old(self).value + val < 0 {
                0
            } else if old(self).value + val > old(self).max {
                old(self).max
            } else {
                (old(self).value + val) as u32
            },
            final(self).max == old(self).max,
    {
        let v = self.value as i64;
        let m = self.max as i64;
        if val >= 0 {
            if val >= m - v {
                self.value = self.max;
            } else {
                self.value = (v + val) as u32;
            }
        } else {
            if v + val < 0 {
                self.value = 0;
            } else if v + val > m {
                self.value = self.max;
            } else {
                self.value = (v + val) as u32;
            }
        }
    }

    /// Adds health, saturating at the maximum.
    pub fn add(&mut self, val: u32)
        ensures
            final(self).value == if old(self).value + val > old(self).max {
                old(self).max
            } else {
                (old(self).value + val) as u32
            },
            final(self).max == old(self).max,
    {
        let raised = self.value.saturating_add(val);
        self.value = if raised > self.max {
            self.max
        } else {
            raised
        };
    }

    /// Subtracts health, saturating at zero.
    pub fn sub(&mut self, val: u32)
        ensures
            final(self).value == if old(self).value >= val {
                (old(self).value - val) as u32
            } else {
                0
            },
            final(self).max == old(self).max,
    {
        self.value = self.value.saturating_sub(val);
    }
}

/// What one attack event does: if it is live, deals damage and carries a
/// target whose health is readable, the damage is subtracted (saturating at
/// zero); health reaching zero enqueues a kill event targeted at the
/// victim, recording the attack and, if the attack named one, the
/// instigator. A send that would overflow a machine counter changes
/// nothing.
pub open spec fn deal_damage_one(
    m: StoreModel,
    qm: QueueModel,
    eid: EntityId,
) -> (StoreModel, QueueModel) {
    match (m.attr_of(eid, DAMAGE_ATTR), m.target_of(eid)) {
        (Some(d), Some(t)) => match m.attr_of(t, HEALTH_VALUE_ATTR) {
            Some(h) => {
                let nh = if h >= d {
                    (h - d) as u64
                } else {
                    0
                };
                let m1 = m.attr_set(t, HEALTH_VALUE_ATTR, nh);
                if nh == 0 && m1.recs.len() < usize::MAX && qm.send_count < usize::MAX {
                    let attrs = match m.attr_of(eid, INSTIGATOR_ATTR) {
                        Some(inst) => Map::<u64, u64>::empty().insert(
                            ATTACK_ATTR,
                            eid.0 as u64,
                        ).insert(INSTIGATOR_ATTR, inst),
                        None => Map::<u64, u64>::empty().insert(ATTACK_ATTR, eid.0 as u64),
                    };
                    event_sent(
                        m1,
                        qm,
                        Some(t),
                        None,
                        Set::<u64>::empty().insert(KILL_TAG),
                        attrs,
                    )
                } else {
                    (m1, qm)
                }
            },
            None => (m, qm),
        },
        _ => (m, qm),
    }
}

/// Damage dealt by a list of unread attack events, in send order.
pub open spec fn deal_damage_list(
    m: StoreModel,
    qm: QueueModel,
    ids: Seq<EntityId>,
) -> (StoreModel, QueueModel)
    decreases ids.len(),
{
    if ids.len() == 0 {
        (m, qm)
    } else {
        let r = deal_damage_one(m, qm, ids[0]);
        deal_damage_list(r.0, r.1, ids.skip(1))
    }
}

/// Applies every unread attack event: subtracts its damage from its
/// target's health and enqueues a kill event when health reaches zero.
#[verifier::loop_isolation(false)]
pub fn deal_damage(store: &mut Store, q: &mut EventEntities, reader: &mut EventEntityReader)
    requires
        old(q).wf(),
    ensures
        final(q).wf(),
        (final(store)@, final(q)@) == deal_damage_list(
            old(store)@,
            old(q)@,
            unread_of(old(q)@, old(reader).last_seen_count as nat),
        ),
        final(reader).last_seen_count == if old(reader).last_seen_count > old(q).send_count {
            old(reader).last_seen_count
        } else {
            old(q).send_count
        },
{
    let ids = reader.read(q);
    let ghost all = ids@;
    proof {
        assert(all.skip(0) =~= all);
    }
    let n = ids.len();
    let mut i: usize = 0;
    while i < n
        invariant
            i <= n,
            q.wf(),
            deal_damage_list(store@, q@, all.skip(i as int)) == deal_damage_list(
                old(store)@,
                old(q)@,
                all,
            ),
        decreases n - i,
    {
        let ghost rest = all.skip(i as int);
        proof {
            assert(rest[0] == all[i as int]);
            assert(rest.skip(1) =~= all.skip(i + 1));
        }
        let eid = ids[i];
        let ghost m_i = store@;
        let ghost q_i = q@;
        if let Some(d) = store.get_attr(eid, DAMAGE_ATTR) {
            if let Some(t) = store.target_of(eid) {
                if let Some(h) = store.get_attr(t, HEALTH_VALUE_ATTR) {
                    let instigator = store.get_attr(eid, INSTIGATOR_ATTR);
                    let nh = if h >= d {
                        h - d
                    } else {
                        0
                    };
                    store.set_attr(t, HEALTH_VALUE_ATTR, nh);
                    if nh == 0 && store.slot_count() < usize::MAX && q.send_count < usize::MAX {
                        let mut tags: Vec<u64> = Vec::new();
                        tags.push(KILL_TAG);
                        let mut attrs: Vec<(u64, u64)> = Vec::new();
                        attrs.push((ATTACK_ATTR, eid.0 as u64));
                        if let Some(inst) = instigator {
                            attrs.push((INSTIGATOR_ATTR, inst));
                        }
                        proof {
                            assert(tags@ =~= Seq::<u64>::empty().push(KILL_TAG));
                            assert(tags@.to_set() =~= Set::<u64>::empty().insert(KILL_TAG));
                            assert(tags@.drop_last() =~= Seq::<u64>::empty());
                            assert(attrs@.subrange(0, 1).drop_last() =~= Seq::<(u64, u64)>::empty());
                            assert(map_of(Seq::<(u64, u64)>::empty()) =~= Map::<u64, u64>::empty());
                            assert(attrs@.subrange(0, 1).last() == (ATTACK_ATTR, eid.0 as u64));
                            assert(map_of(attrs@.subrange(0, 1)) =~= Map::<u64, u64>::empty()
                                .insert(ATTACK_ATTR, eid.0 as u64));
                            if attrs@.len() == 2 {
                                assert(attrs@.drop_last() =~= attrs@.subrange(0, 1));
                                assert(map_of(attrs@) =~= Map::<u64, u64>::empty().insert(
                                    ATTACK_ATTR,
                                    eid.0 as u64,
                                ).insert(INSTIGATOR_ATTR, attrs@.last().1));
                            } else {
                                assert(attrs@ =~= attrs@.subrange(0, 1));
                            }
                        }
                        let bundle = EventBundle {
                            tags,
                            attrs,
                            target: Some(Target(t)),
                            propagated_from: None,
                        };
                        send_event(store, q, bundle);
                    }
                }
            }
        }
        proof {
            assert((store@, q@) == deal_damage_one(m_i, q_i, eid));
        }
        i = i + 1;
    }
    proof {
        assert(all.skip(n as int) =~= Seq::<EntityId>::empty());
    }
}

/// What one kill event does: a live event tagged as a kill and carrying a
/// target despawns the target with its whole hierarchy subtree.
pub open spec fn kill_one(m: StoreModel, eid: EntityId) -> StoreModel {
    if m.has_tag(eid, KILL_TAG) {
        match m.target_of(eid) {
            Some(t) => m.despawned_recursively(t),
            None => m,
        }
    } else {
        m
    }
}

/// The kills of a list of unread events, in send order.
pub open spec fn kill_list(m: StoreModel, ids: Seq<EntityId>) -> StoreModel
    decreases ids.len(),
{
    if ids.len() == 0 {
        m
    } else {
        kill_list(kill_one(m, ids[0]), ids.skip(1))
    }
}

/// Applies every unread kill event: despawns its target recursively if the
/// target still exists.
#[verifier::loop_isolation(false)]
pub fn kill_entities(store: &mut Store, q: &EventEntities, reader: &mut EventEntityReader)
    requires
        q.wf(),
    ensures
        final(store)@ == kill_list(
            old(store)@,
            unread_of(q@, old(reader).last_seen_count as nat),
        ),
        final(reader).last_seen_count == if old(reader).last_seen_count > q.send_count {
            old(reader).last_seen_count
        } else {
            q.send_count
        },
{
    let ids = reader.read(q);
    let ghost all = ids@;
    proof {
        assert(all.skip(0) =~= all);
    }
    let n = ids.len();
    let mut i: usize = 0;
    while i < n
        invariant
            i <= n,
            kill_list(store@, all.skip(i as int)) == kill_list(old(store)@, all),
        decreases n - i,
    {
        let ghost rest = all.skip(i as int);
        proof {
            assert(rest[0] == all[i as int]);
            assert(rest.skip(1) =~= all.skip(i + 1));
        }
        let eid = ids[i];
        if store.has_tag(eid, KILL_TAG) {
            if let Some(t) = store.target_of(eid) {
                if store.contains(t) {
                    store.despawn_recursive(t);
                }
            }
        }
        i = i + 1;
    }
    proof {
        assert(all.skip(n as int) =~= Seq::<EntityId>::empty());
    }
}

/// The per-system cursors of the damage schedule: each phase's listener
/// systems and the damage and kill systems read through their own readers.
pub struct DamageReaders {
    pub attack_listeners: ListenerReaders,
    pub deal: EventEntityReader,
    pub kill_listeners: ListenerReaders,
    pub kill: EventEntityReader,
}

impl DamageReaders {
    /// Readers positioned at the start of history.
    pub fn new() -> (r: DamageReaders)
        ensures
            r.attack_listeners.propagate.last_seen_count == 0,
            r.attack_listeners.callbacks.last_seen_count == 0,
            r.deal.last_seen_count == 0,
            r.kill_listeners.propagate.last_seen_count == 0,
            r.kill_listeners.callbacks.last_seen_count == 0,
            r.kill.last_seen_count == 0,
    {
        DamageReaders {
            attack_listeners: ListenerReaders::new(),
            deal: EventEntityReader::new(),
            kill_listeners: ListenerReaders::new(),
            kill: EventEntityReader::new(),
        }
    }
}

/// The whole state one damage pass acts on.
pub ghost struct DamageState {
    pub m: StoreModel,
    pub qm: QueueModel,
    pub att_prop: nat,
    pub att_cb: nat,
    pub deal: nat,
    pub kill_prop: nat,
    pub kill_cb: nat,
    pub kill: nat,
}

/// The new cursor position after a read.
pub open spec fn caught_up(last: nat, send_count: nat) -> nat {
    if last > send_count {
        last
    } else {
        send_count
    }
}

/// One damage pass: an attack phase (listener pass, then damage), followed
/// by a kill phase (listener pass, then kills).
pub open spec fn damage_pass(s: DamageState) -> DamageState {
    let p1 = listener_pass(
        PassState { m: s.m, qm: s.qm, prop_last: s.att_prop, cb_last: s.att_cb },
    );
    let d = deal_damage_list(p1.m, p1.qm, unread_of(p1.qm, s.deal));
    let deal2 = caught_up(s.deal, p1.qm.send_count);
    let p2 = listener_pass(
        PassState { m: d.0, qm: d.1, prop_last: s.kill_prop, cb_last: s.kill_cb },
    );
    let k = kill_list(p2.m, unread_of(p2.qm, s.kill));
    let kill2 = caught_up(s.kill, p2.qm.send_count);
    DamageState {
        m: k,
        qm: p2.qm,
        att_prop: p1.prop_last,
        att_cb: p1.cb_last,
        deal: deal2,
        kill_prop: p2.prop_last,
        kill_cb: p2.cb_last,
        kill: kill2,
    }
}

/// Damage passes repeated until one leaves the queue's length unchanged,
/// or the pass budget runs out; the flag says whether the fixed point was
/// reached.
pub open spec fn damage_fixpoint(s: DamageState, fuel: nat) -> (DamageState, bool)
    decreases fuel,
{
    if fuel == 0 {
        (s, false)
    } else {
        let s2 = damage_pass(s);
        if s2.qm.retained().len() == s.qm.retained().len() {
            (s2, true)
        } else {
            damage_fixpoint(s2, (fuel - 1) as nat)
        }
    }
}

/// The damage state a store, queue and reader set stand for.
pub open spec fn damage_state_of(store: Store, q: EventEntities, rs: DamageReaders) -> DamageState {
    DamageState {
        m: store@,
        qm: q@,
        att_prop: rs.attack_listeners.propagate.last_seen_count as nat,
        att_cb: rs.attack_listeners.callbacks.last_seen_count as nat,
        deal: rs.deal.last_seen_count as nat,
        kill_prop: rs.kill_listeners.propagate.last_seen_count as nat,
        kill_cb: rs.kill_listeners.callbacks.last_seen_count as nat,
        kill: rs.kill.last_seen_count as nat,
    }
}

/// Runs attack and kill phases until a pass leaves the queue's length
/// unchanged — so a death caused by an attack is processed before the
/// schedule returns, without a second external invocation — or until
/// `max_passes` further passes have been run. Returns true if the fixed
/// point was reached.
#[verifier::loop_isolation(false)]
pub fn run_damage_schedule(
    store: &mut Store,
    q: &mut EventEntities,
    readers: &mut DamageReaders,
    max_passes: usize,
) -> (settled: bool)
    requires
        old(q).wf(),
    ensures
        final(q).wf(),
        (damage_state_of(*final(store), *final(q), *final(readers)), settled) == damage_fixpoint(
            damage_state_of(*old(store), *old(q), *old(readers)),
            max_passes as nat,
        ),
{
    let ghost s0 = damage_state_of(*store, *q, *readers);
    let mut passes: usize = 0;
    let mut settled = false;
    while passes < max_passes && !settled
        invariant
            passes <= max_passes,
            q.wf(),
            !settled ==> damage_fixpoint(
                damage_state_of(*store, *q, *readers),
                (max_passes - passes) as nat,
            ) == damage_fixpoint(s0, max_passes as nat),
            settled ==> (damage_state_of(*store, *q, *readers), true) == damage_fixpoint(
                s0,
                max_passes as nat,
            ),
        decreases max_passes - passes, (if settled { 0int } else { 1int }),
    {
        let ghost s_before = damage_state_of(*store, *q, *readers);
        let before = q.len();
        crate::dispatch::propagate_events(store, q, &mut readers.attack_listeners.propagate);
        crate::dispatch::run_callbacks(store, q, &mut readers.attack_listeners.callbacks);
        deal_damage(store, q, &mut readers.deal);
        crate::dispatch::propagate_events(store, q, &mut readers.kill_listeners.propagate);
        crate::dispatch::run_callbacks(store, q, &mut readers.kill_listeners.callbacks);
        kill_entities(store, q, &mut readers.kill);
        proof {
            assert(damage_state_of(*store, *q, *readers) == damage_pass(s_before));
        }
        if q.len() == before {
            settled = true;
        } else {
            passes = passes + 1;
        }
    }
    settled
}

} // verus!
