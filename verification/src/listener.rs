//! The meaning of listener predicates and callback programs: how a
//! predicate reads an event record, and how each guarded operation of a
//! callback transforms the store and the queue.

use vstd::prelude::*;

use crate::callback::{
    Act, CallbackIdent, CallbackProgram, CallbackSystemInner, Guard, ListenerInput, Op, Selector,
    SendSpec,
};
use crate::id::{EntityId, Target};
use crate::queue::{EventEntities, QueueModel};
use crate::reader::{unread_of, EventEntityReader};
use crate::store::{map_of, EventBundle, Store, StoreModel};

verus! {

/// The entity a selector names, relative to one callback invocation.
/// `Target` reads the root event record's `Target` as it stands now, so a
/// target swapped in for a propagated event is what the callback sees.
pub open spec fn resolve(
    m: StoreModel,
    input: ListenerInput,
    owner: EntityId,
    sel: Selector,
) -> Option<EntityId> {
    match sel {
        Selector::Target => m.target_of(input.event_type.spec_id()),
        Selector::Event => Some(input.event_type.spec_id()),
        Selector::Owner => Some(owner),
        Selector::Fixed(e) => Some(e),
    }
}

/// Resolves a selector against the store as it stands.
pub fn resolve_selector(
    store: &Store,
    input: ListenerInput,
    owner: EntityId,
    sel: Selector,
) -> (r: Option<EntityId>)
    ensures
        r == resolve(store@, input, owner, sel),
{
    match sel {
        Selector::Target => store.target_of(input.id()),
        Selector::Event => Some(input.id()),
        Selector::Owner => Some(owner),
        Selector::Fixed(e) => Some(e),
    }
}

impl crate::callback::ListenerIdent {
    /// Whether the predicate accepts the event record's current attribute
    /// set. A dead record satisfies no predicate.
    pub open spec fn matches(self, m: StoreModel, e: EntityId) -> bool
        decreases self,
    {
        match self {
            crate::callback::ListenerIdent::HasTag(t) => m.has_tag(e, t),
            crate::callback::ListenerIdent::HasTarget => m.target_of(e) is Some,
            crate::callback::ListenerIdent::HasAttr(k) => m.attr_of(e, k) is Some,
            crate::callback::ListenerIdent::And(a, b) => a.matches(m, e) && b.matches(m, e),
            crate::callback::ListenerIdent::Or(a, b) => a.matches(m, e) || b.matches(m, e),
        }
    }

    /// Evaluates the predicate against the event record's current state.
    pub fn entity_contains(&self, store: &Store, e: EntityId) -> (r: bool)
        ensures
            r == self.matches(store@, e),
        decreases self,
    {
        match self {
            crate::callback::ListenerIdent::HasTag(t) => store.has_tag(e, *t),
            crate::callback::ListenerIdent::HasTarget => store.target_of(e).is_some(),
            crate::callback::ListenerIdent::HasAttr(k) => store.get_attr(e, *k).is_some(),
            crate::callback::ListenerIdent::And(a, b) => a.entity_contains(store, e)
                && b.entity_contains(store, e),
            crate::callback::ListenerIdent::Or(a, b) => a.entity_contains(store, e)
                || b.entity_contains(store, e),
        }
    }
}

impl CallbackIdent {
    /// Evaluates the registration's predicate against an event record.
    pub fn entity_contains(&self, store: &Store, e: EntityId) -> (r: bool)
        ensures
            r == self.pred.matches(store@, e),
    {
        self.pred.entity_contains(store, e)
    }
}

/// Whether a guard holds of the store as it stands when its operation is
/// reached. A guard whose selector does not name a live entity fails.
pub open spec fn guard_holds(
    m: StoreModel,
    input: ListenerInput,
    owner: EntityId,
    g: Guard,
) -> bool {
    match g {
        Guard::Always => true,
        Guard::HasTag(sel, t) => match resolve(m, input, owner, sel) {
            Some(e) => m.has_tag(e, t),
            None => false,
        },
        Guard::LacksTag(sel, t) => match resolve(m, input, owner, sel) {
            Some(e) => m.live(e) && !m.has_tag(e, t),
            None => false,
        },
        Guard::AttrEq(sel, k, v) => match resolve(m, input, owner, sel) {
            Some(e) => m.attr_of(e, k) == Some(v),
            None => false,
        },
        Guard::CallbackPresent(sel) => match resolve(m, input, owner, sel) {
            Some(e) => m.callback_of(e) is Some,
            None => false,
        },
        Guard::CallbackAbsent(sel) => match resolve(m, input, owner, sel) {
            Some(e) => m.live(e) && m.callback_of(e) is None,
            None => false,
        },
    }
}

/// Evaluates a guard against the store as it stands.
pub fn eval_guard(store: &Store, input: ListenerInput, owner: EntityId, g: Guard) -> (r: bool)
    ensures
        r == guard_holds(store@, input, owner, g),
{
    match g {
        Guard::Always => true,
        Guard::HasTag(sel, t) => match resolve_selector(store, input, owner, sel) {
            Some(e) => store.has_tag(e, t),
            None => false,
        },
        Guard::LacksTag(sel, t) => match resolve_selector(store, input, owner, sel) {
            Some(e) => store.contains(e) && !store.has_tag(e, t),
            None => false,
        },
        Guard::AttrEq(sel, k, v) => match resolve_selector(store, input, owner, sel) {
            Some(e) => store.get_attr(e, k) == Some(v),
            None => false,
        },
        Guard::CallbackPresent(sel) => match resolve_selector(store, input, owner, sel) {
            Some(e) => store.has_callback(e),
            None => false,
        },
        Guard::CallbackAbsent(sel) => match resolve_selector(store, input, owner, sel) {
            Some(e) => store.contains(e) && !store.has_callback(e),
            None => false,
        },
    }
}

/// What one effect does to the store and the queue. Effects on entities a
/// selector cannot name, and sends that would overflow a machine counter,
/// change nothing.
pub open spec fn apply_act(
    m: StoreModel,
    qm: QueueModel,
    input: ListenerInput,
    owner: EntityId,
    act: Act,
) -> (StoreModel, QueueModel) {
    match act {
        Act::InsertTag(sel, t) => match resolve(m, input, owner, sel) {
            Some(e) => (m.tag_inserted(e, t), qm),
            None => (m, qm),
        },
        Act::RemoveTag(sel, t) => match resolve(m, input, owner, sel) {
            Some(e) => (m.tag_removed(e, t), qm),
            None => (m, qm),
        },
        Act::SetAttr(sel, k, v) => match resolve(m, input, owner, sel) {
            Some(e) => (m.attr_set(e, k, v), qm),
            None => (m, qm),
        },
        Act::RemoveAttr(sel, k) => match resolve(m, input, owner, sel) {
            Some(e) => (m.attr_removed(e, k), qm),
            None => (m, qm),
        },
        Act::SubAttr(dst, dk, src, sk) => match (
            resolve(m, input, owner, dst),
            resolve(m, input, owner, src),
        ) {
            (Some(d), Some(s)) => match (m.attr_of(d, dk), m.attr_of(s, sk)) {
                (Some(dv), Some(sv)) => (
                    m.attr_set(d, dk, if dv >= sv { (dv - sv) as u64 } else { 0 }),
                    qm,
                ),
                _ => (m, qm),
            },
            _ => (m, qm),
        },
        Act::Despawn(sel) => match resolve(m, input, owner, sel) {
            Some(e) => (m.destroyed(e), qm),
            None => (m, qm),
        },
        Act::Send(ss) => {
            let target = match ss.target {
                Some(sel) => resolve(m, input, owner, sel),
                None => None,
            };
            if m.recs.len() < usize::MAX && qm.send_count < usize::MAX {
                (
                    m.spawned(target, None, ss.tags@.to_set(), map_of(ss.attrs@)),
                    qm.sent(m.new_id()),
                )
            } else {
                (m, qm)
            }
        },
    }
}

/// Performs one effect on the store and the queue.
#[verifier::loop_isolation(false)]
pub fn run_act(
    store: &mut Store,
    q: &mut EventEntities,
    input: ListenerInput,
    owner: EntityId,
    act: &Act,
)
    requires
        old(q).wf(),
    ensures
        final(q).wf(),
        (final(store)@, final(q)@) == apply_act(old(store)@, old(q)@, input, owner, *act),
{
    match act {
        Act::InsertTag(sel, t) => {
            if let Some(e) = resolve_selector(store, input, owner, *sel) {
                store.insert_tag(e, *t);
            }
        },
        Act::RemoveTag(sel, t) => {
            if let Some(e) = resolve_selector(store, input, owner, *sel) {
                store.remove_tag(e, *t);
            }
        },
        Act::SetAttr(sel, k, v) => {
            if let Some(e) = resolve_selector(store, input, owner, *sel) {
                store.set_attr(e, *k, *v);
            }
        },
        Act::RemoveAttr(sel, k) => {
            if let Some(e) = resolve_selector(store, input, owner, *sel) {
                store.remove_attr(e, *k);
            }
        },
        Act::SubAttr(dst, dk, src, sk) => {
            if let Some(d) = resolve_selector(store, input, owner, *dst) {
                if let Some(s) = resolve_selector(store, input, owner, *src) {
                    if let Some(dv) = store.get_attr(d, *dk) {
                        if let Some(sv) = store.get_attr(s, *sk) {
                            let nv = if dv >= sv {
                                dv - sv
                            } else {
                                0
                            };
                            store.set_attr(d, *dk, nv);
                        }
                    }
                }
            }
        },
        Act::Despawn(sel) => {
            if let Some(e) = resolve_selector(store, input, owner, *sel) {
                store.destroy(e);
            }
        },
        Act::Send(ss) => {
            let target = match ss.target {
                Some(sel) => resolve_selector(store, input, owner, sel),
                None => None,
            };
            if store.slot_count() < usize::MAX && q.send_count < usize::MAX {
                let n = ss.tags.len();
                let mut tags: Vec<u64> = Vec::new();
                let mut i: usize = 0;
                while i < n
                    invariant
                        i <= n,
                        tags@ == ss.tags@.subrange(0, i as int),
                    decreases n - i,
                {
                    tags.push(ss.tags[i]);
                    proof {
                        assert(tags@ =~= ss.tags@.subrange(0, i + 1));
                    }
                    i = i + 1;
                }
                let na = ss.attrs.len();
                let mut attrs: Vec<(u64, u64)> = Vec::new();
                let mut j: usize = 0;
                while j < na
                    invariant
                        j <= na,
                        attrs@ == ss.attrs@.subrange(0, j as int),
                    decreases na - j,
                {
                    attrs.push(ss.attrs[j]);
                    proof {
                        assert(attrs@ =~= ss.attrs@.subrange(0, j + 1));
                    }
                    j = j + 1;
                }
                proof {
                    assert(tags@ =~= ss.tags@);
                    assert(attrs@ =~= ss.attrs@);
                }
                let bundle = EventBundle {
                    tags,
                    attrs,
                    target: match target {
                        Some(t) => Some(Target(t)),
                        None => None,
                    },
                    propagated_from: None,
                };
                crate::queue::send_event(store, q, bundle);
            }
        },
    }
}

/// What a whole callback program does: its operations run in order, each
/// guard evaluated against the store as it stands when the operation is
/// reached.
pub open spec fn run_ops(
    m: StoreModel,
    qm: QueueModel,
    input: ListenerInput,
    owner: EntityId,
    ops: Seq<Op>,
) -> (StoreModel, QueueModel)
    decreases ops.len(),
{
    if ops.len() == 0 {
        (m, qm)
    } else {
        let next = if guard_holds(m, input, owner, ops[0].guard) {
            apply_act(m, qm, input, owner, ops[0].act)
        } else {
            (m, qm)
        };
        run_ops(next.0, next.1, input, owner, ops.skip(1))
    }
}

/// Runs a callback program against the store and the queue.
#[verifier::loop_isolation(false)]
pub fn run_program(
    store: &mut Store,
    q: &mut EventEntities,
    input: ListenerInput,
    owner: EntityId,
    prog: &CallbackProgram,
)
    requires
        old(q).wf(),
    ensures
        final(q).wf(),
        (final(store)@, final(q)@) == run_ops(old(store)@, old(q)@, input, owner, prog.ops@),
{
    let n = prog.ops.len();
    proof {
        assert(prog.ops@.skip(0) =~= prog.ops@);
    }
    let mut i: usize = 0;
    while i < n
        invariant
            i <= n,
            q.wf(),
            run_ops(store@, q@, input, owner, prog.ops@.skip(i as int)) == run_ops(
                old(store)@,
                old(q)@,
                input,
                owner,
                prog.ops@,
            ),
        decreases n - i,
    {
        let ghost rest = prog.ops@.skip(i as int);
        let op = &prog.ops[i];
        proof {
            assert(rest[0] == prog.ops@[i as int]);
            assert(rest.skip(1) =~= prog.ops@.skip(i + 1));
        }
        if eval_guard(store, input, owner, op.guard) {
            run_act(store, q, input, owner, &op.act);
        }
        i = i + 1;
    }
    proof {
        assert(prog.ops@.skip(n as int) =~= Seq::<Op>::empty());
    }
}

/// The ids among `ids` whose records the predicate accepts, in order.
pub open spec fn matching_of(
    m: StoreModel,
    ids: Seq<crate::id::EntityId>,
    pred: crate::callback::ListenerIdent,
) -> Seq<crate::id::EntityId>
    decreases ids.len(),
{
    if ids.len() == 0 {
        Seq::empty()
    } else {
        let rest = matching_of(m, ids.skip(1), pred);
        if pred.matches(m, ids[0]) {
            seq![ids[0]] + rest
        } else {
            rest
        }
    }
}

impl EventEntityReader {
    /// The query-filtered read: returns the unread events whose records
    /// currently satisfy the predicate, in send order, and advances the
    /// cursor past the whole unread suffix. An event whose record does not
    /// match — destroyed, or its attributes changed — is silently skipped,
    /// never an error.
    #[verifier::loop_isolation(false)]
    pub fn read_matching(
        &mut self,
        q: &EventEntities,
        store: &Store,
        ident: &CallbackIdent,
    ) -> (r: Vec<crate::id::EntityId>)
        requires
            q.wf(),
        ensures
            r@ == matching_of(
                store@,
                unread_of(q@, old(self).last_seen_count as nat),
                ident.pred,
            ),
            final(self).last_seen_count == if old(self).last_seen_count > q.send_count {
                old(self).last_seen_count
            } else {
                q.send_count
            },
    {
        let ids = self.read(q);
        let ghost all = ids@;
        proof {
            assert(all.skip(0) =~= all);
        }
        let n = ids.len();
        let mut r: Vec<crate::id::EntityId> = Vec::new();
        let mut i: usize = 0;
        while i < n
            invariant
                i <= n,
                matching_of(store@, all, ident.pred) == r@ + matching_of(
                    store@,
                    all.skip(i as int),
                    ident.pred,
                ),
            decreases n - i,
        {
            let ghost rest = all.skip(i as int);
            proof {
                assert(rest[0] == all[i as int]);
                assert(rest.skip(1) =~= all.skip(i + 1));
            }
            if ident.entity_contains(store, ids[i]) {
                proof {
                    assert(r@ + (seq![all[i as int]] + matching_of(
                        store@,
                        all.skip(i + 1),
                        ident.pred,
                    )) =~= r@.push(all[i as int]) + matching_of(store@, all.skip(i + 1), ident.pred));
                }
                r.push(ids[i]);
            }
            i = i + 1;
        }
        proof {
            assert(all.skip(n as int) =~= Seq::<crate::id::EntityId>::empty());
            assert(r@ + Seq::<crate::id::EntityId>::empty() =~= r@);
        }
        r
    }
}

impl CallbackSystemInner {
    /// Runs the callback: its program is interpreted against the store and
    /// the queue, and the callback comes back `Ready`, its one-time setup
    /// paid.
    pub fn run(
        self,
        store: &mut Store,
        q: &mut EventEntities,
        input: ListenerInput,
        owner: EntityId,
    ) -> (r: CallbackSystemInner)
        requires
            old(q).wf(),
        ensures
            final(q).wf(),
            (final(store)@, final(q)@) == run_ops(
                old(store)@,
                old(q)@,
                input,
                owner,
                self.ops_spec(),
            ),
            r == self.readied(),
    {
        match self {
            CallbackSystemInner::Pending(p) => {
                run_program(store, q, input, owner, &p);
                CallbackSystemInner::Ready(p)
            },
            CallbackSystemInner::Ready(p) => {
                run_program(store, q, input, owner, &p);
                CallbackSystemInner::Ready(p)
            },
        }
    }
}

} // verus!
