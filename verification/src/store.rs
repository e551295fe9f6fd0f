//! The entity/attribute store the event bus is layered on, modeled as a
//! table of records indexed by entity id.
//!
//! Entity ids are never reused: destroying an entity marks its record dead
//! and every accessor is gated on liveness, so a stale handle reads as
//! absent. Each record holds the parts of an entity the event bus reads:
//! a parent link, the event markers (`Target`, the propagation origin),
//! plain tags, integer attributes, and a listener registration (predicate
//! plus callback).

use vstd::prelude::*;

use crate::callback::{CallbackIdent, CallbackSystemInner, ListenerIdent};
use crate::id::{EntityId, PropagatedEvent, Target};

verus! {

broadcast use vstd::seq_lib::lemma_seq_contains_after_push;

/// The mathematical model of one entity record.
#[verifier::ext_equal]
pub ghost struct RecModel {
    pub alive: bool,
    pub parent: Option<EntityId>,
    pub target: Option<EntityId>,
    pub propagated_from: Option<EntityId>,
    pub tags: Set<u64>,
    pub attrs: Map<u64, u64>,
    pub ident: Option<ListenerIdent>,
    pub callback: Option<CallbackSystemInner>,
}

impl RecModel {
    /// A freshly created entity: live, with nothing attached.
    pub open spec fn empty() -> RecModel {
        RecModel {
            alive: true,
            parent: None,
            target: None,
            propagated_from: None,
            tags: Set::empty(),
            attrs: Map::empty(),
            ident: None,
            callback: None,
        }
    }
}

/// The mathematical model of the store: one record per ever-created entity.
#[verifier::ext_equal]
pub ghost struct StoreModel {
    pub recs: Seq<RecModel>,
}

impl StoreModel {
    pub open spec fn in_range(self, e: EntityId) -> bool {
        e.0 < self.recs.len()
    }

    pub open spec fn rec(self, e: EntityId) -> RecModel
        recommends
            self.in_range(e),
    {
        self.recs[e.0 as int]
    }

    /// Liveness: the handle names a created, not yet destroyed entity.
    pub open spec fn live(self, e: EntityId) -> bool {
        self.in_range(e) && self.rec(e).alive
    }

    pub open spec fn parent_of(self, e: EntityId) -> Option<EntityId> {
        if self.live(e) {
            self.rec(e).parent
        } else {
            None
        }
    }

    pub open spec fn target_of(self, e: EntityId) -> Option<EntityId> {
        if self.live(e) {
            self.rec(e).target
        } else {
            None
        }
    }

    pub open spec fn propagated_from_of(self, e: EntityId) -> Option<EntityId> {
        if self.live(e) {
            self.rec(e).propagated_from
        } else {
            None
        }
    }

    pub open spec fn has_tag(self, e: EntityId, tag: u64) -> bool {
        self.live(e) && self.rec(e).tags.contains(tag)
    }

    pub open spec fn attr_of(self, e: EntityId, key: u64) -> Option<u64> {
        if self.live(e) && self.rec(e).attrs.contains_key(key) {
            Some(self.rec(e).attrs[key])
        } else {
            None
        }
    }

    pub open spec fn ident_of(self, e: EntityId) -> Option<ListenerIdent> {
        if self.live(e) {
            self.rec(e).ident
        } else {
            None
        }
    }

    pub open spec fn callback_of(self, e: EntityId) -> Option<CallbackSystemInner> {
        if self.live(e) {
            self.rec(e).callback
        } else {
            None
        }
    }

    pub open spec fn with_rec(self, e: EntityId, r: RecModel) -> StoreModel {
        StoreModel { recs: self.recs.update(e.0 as int, r) }
    }

    /// The id the next created entity will get.
    pub open spec fn new_id(self) -> EntityId {
        EntityId(self.recs.len() as usize)
    }

    /// The store after creating one empty entity.
    pub open spec fn created(self) -> StoreModel {
        StoreModel { recs: self.recs.push(RecModel::empty()) }
    }

    /// The store after creating one entity with the given attachments.
    pub open spec fn spawned(
        self,
        target: Option<EntityId>,
        propagated_from: Option<EntityId>,
        tags: Set<u64>,
        attrs: Map<u64, u64>,
    ) -> StoreModel {
        StoreModel {
            recs: self.recs.push(
                RecModel {
                    alive: true,
                    parent: None,
                    target,
                    propagated_from,
                    tags,
                    attrs,
                    ident: None,
                    callback: None,
                },
            ),
        }
    }

    /// The store after destroying `e`: its record is dead, nothing else
    /// changes. Destroying a dead or unknown handle changes nothing.
    pub open spec fn destroyed(self, e: EntityId) -> StoreModel {
        if self.live(e) {
            self.with_rec(e, RecModel { alive: false, ..self.rec(e) })
        } else {
            self
        }
    }

    pub open spec fn tag_inserted(self, e: EntityId, tag: u64) -> StoreModel {
        if self.live(e) {
            self.with_rec(e, RecModel { tags: self.rec(e).tags.insert(tag), ..self.rec(e) })
        } else {
            self
        }
    }

    pub open spec fn tag_removed(self, e: EntityId, tag: u64) -> StoreModel {
        if self.live(e) {
            self.with_rec(e, RecModel { tags: self.rec(e).tags.remove(tag), ..self.rec(e) })
        } else {
            self
        }
    }

    pub open spec fn attr_set(self, e: EntityId, key: u64, value: u64) -> StoreModel {
        if self.live(e) {
            self.with_rec(e, RecModel { attrs: self.rec(e).attrs.insert(key, value), ..self.rec(e) })
        } else {
            self
        }
    }

    pub open spec fn attr_removed(self, e: EntityId, key: u64) -> StoreModel {
        if self.live(e) {
            self.with_rec(e, RecModel { attrs: self.rec(e).attrs.remove(key), ..self.rec(e) })
        } else {
            self
        }
    }

    pub open spec fn parent_set(self, child: EntityId, parent: EntityId) -> StoreModel {
        if self.live(child) {
            self.with_rec(child, RecModel { parent: Some(parent), ..self.rec(child) })
        } else {
            self
        }
    }

    pub open spec fn target_set(self, e: EntityId, target: EntityId) -> StoreModel {
        if self.live(e) {
            self.with_rec(e, RecModel { target: Some(target), ..self.rec(e) })
        } else {
            self
        }
    }

    pub open spec fn ident_set(self, e: EntityId, ident: ListenerIdent) -> StoreModel {
        if self.live(e) {
            self.with_rec(e, RecModel { ident: Some(ident), ..self.rec(e) })
        } else {
            self
        }
    }

    /// The store after the callback record is taken off `e` for execution.
    pub open spec fn callback_taken(self, e: EntityId) -> StoreModel {
        if self.live(e) {
            self.with_rec(e, RecModel { callback: None, ..self.rec(e) })
        } else {
            self
        }
    }

    /// The store after a callback record is put (back) onto `e`.
    pub open spec fn callback_put(self, e: EntityId, cb: CallbackSystemInner) -> StoreModel {
        if self.live(e) {
            self.with_rec(e, RecModel { callback: Some(cb), ..self.rec(e) })
        } else {
            self
        }
    }
}

impl StoreModel {
    /// The marks after one round: everything already marked, plus every
    /// live entity whose parent is marked.
    pub open spec fn mark_children(m: StoreModel, marked: Seq<bool>) -> Seq<bool> {
        Seq::new(
            marked.len(),
            |i: int|
                marked[i] || (match m.parent_of(EntityId(i as usize)) {
                    Some(p) => p.0 < marked.len() && marked[p.0 as int],
                    None => false,
                }),
        )
    }

    /// The marks after `k` rounds.
    pub open spec fn mark_rounds(m: StoreModel, marked: Seq<bool>, k: nat) -> Seq<bool>
        decreases k,
    {
        if k == 0 {
            marked
        } else {
            StoreModel::mark_rounds(m, StoreModel::mark_children(m, marked), (k - 1) as nat)
        }
    }

    /// Only the root marked.
    pub open spec fn init_marks(n: nat, root: EntityId) -> Seq<bool> {
        Seq::new(n, |i: int| i == root.0)
    }

    /// The store with every marked record dead.
    pub open spec fn destroy_marked(self, marked: Seq<bool>) -> StoreModel {
        StoreModel {
            recs: Seq::new(
                self.recs.len(),
                |i: int|
                    if i < marked.len() && marked[i] {
                        RecModel { alive: false, ..self.recs[i] }
                    } else {
                        self.recs[i]
                    },
            ),
        }
    }

    /// The store after the entity and its transitive hierarchy descendants
    /// are destroyed; a dead or unknown root changes nothing.
    pub open spec fn despawned_recursively(self, root: EntityId) -> StoreModel {
        if self.live(root) {
            self.destroy_marked(
                StoreModel::mark_rounds(
                    self,
                    StoreModel::init_marks(self.recs.len(), root),
                    self.recs.len(),
                ),
            )
        } else {
            self
        }
    }
}

/// How many positions are marked.
spec fn count_true(s: Seq<bool>) -> nat
    decreases s.len(),
{
    if s.len() == 0 {
        0
    } else {
        count_true(s.drop_last()) + (if s.last() {
            1nat
        } else {
            0nat
        })
    }
}

proof fn lemma_count_le(a: Seq<bool>, b: Seq<bool>)
    requires
        a.len() == b.len(),
        forall|i: int| 0 <= i < a.len() && a[i] ==> b[i],
    ensures
        count_true(a) <= count_true(b),
    decreases a.len(),
{
    if a.len() > 0 {
        lemma_count_le(a.drop_last(), b.drop_last());
    }
}

proof fn lemma_count_lt(a: Seq<bool>, b: Seq<bool>, j: int)
    requires
        a.len() == b.len(),
        forall|i: int| 0 <= i < a.len() && a[i] ==> b[i],
        0 <= j < a.len(),
        b[j],
        !a[j],
    ensures
        count_true(a) < count_true(b),
    decreases a.len(),
{
    if j == a.len() - 1 {
        lemma_count_le(a.drop_last(), b.drop_last());
    } else {
        lemma_count_lt(a.drop_last(), b.drop_last(), j);
    }
}

proof fn lemma_count_max(s: Seq<bool>)
    ensures
        count_true(s) <= s.len(),
    decreases s.len(),
{
    if s.len() > 0 {
        lemma_count_max(s.drop_last());
    }
}

proof fn lemma_count_pos(s: Seq<bool>, i: int)
    requires
        0 <= i < s.len(),
        s[i],
    ensures
        count_true(s) >= 1,
    decreases s.len(),
{
    if i < s.len() - 1 {
        lemma_count_pos(s.drop_last(), i);
    }
}

/// A marking round keeps every mark.
proof fn lemma_mark_children_monotone(m: StoreModel, s: Seq<bool>)
    ensures
        forall|i: int| 0 <= i < s.len() && s[i] ==> StoreModel::mark_children(m, s)[i],
{
}

/// Marks survive any number of further rounds.
proof fn lemma_mark_rounds_monotone(m: StoreModel, s: Seq<bool>, k: nat)
    ensures
        StoreModel::mark_rounds(m, s, k).len() == s.len(),
        forall|i: int| 0 <= i < s.len() && s[i] ==> StoreModel::mark_rounds(m, s, k)[i],
    decreases k,
{
    if k > 0 {
        lemma_mark_children_monotone(m, s);
        lemma_mark_rounds_monotone(m, StoreModel::mark_children(m, s), (k - 1) as nat);
    }
}

/// Rounds can be peeled off either end.
proof fn lemma_mark_rounds_commute(m: StoreModel, s: Seq<bool>, k: nat)
    requires
        k > 0,
    ensures
        StoreModel::mark_rounds(m, s, k) == StoreModel::mark_children(
            m,
            StoreModel::mark_rounds(m, s, (k - 1) as nat),
        ),
    decreases k,
{
    if k == 1 {
        assert(StoreModel::mark_rounds(m, s, 1) == StoreModel::mark_rounds(
            m,
            StoreModel::mark_children(m, s),
            0nat,
        ));
        assert(StoreModel::mark_rounds(m, StoreModel::mark_children(m, s), 0nat)
            == StoreModel::mark_children(m, s));
    } else {
        lemma_mark_rounds_commute(m, StoreModel::mark_children(m, s), (k - 1) as nat);
        assert(StoreModel::mark_rounds(m, s, k) == StoreModel::mark_rounds(
            m,
            StoreModel::mark_children(m, s),
            (k - 1) as nat,
        ));
        assert(StoreModel::mark_rounds(m, s, (k - 1) as nat) == StoreModel::mark_rounds(
            m,
            StoreModel::mark_children(m, s),
            (k - 2) as nat,
        ));
    }
}

/// A round that changes nothing stays a fixed point forever.
proof fn lemma_mark_fixed_propagates(m: StoreModel, s: Seq<bool>, k: nat)
    requires
        StoreModel::mark_children(m, s) == s,
    ensures
        StoreModel::mark_rounds(m, s, k) == s,
    decreases k,
{
    if k > 0 {
        lemma_mark_fixed_propagates(m, s, (k - 1) as nat);
    }
}

/// Either round `j` is already a fixed point, or `j` rounds have strictly
/// grown the mark count `j` times.
proof fn lemma_mark_climb(m: StoreModel, s: Seq<bool>, j: nat)
    requires
        count_true(s) >= 1,
    ensures
        ({
            let sj = StoreModel::mark_rounds(m, s, j);
            StoreModel::mark_children(m, sj) == sj || count_true(sj) >= 1 + j
        }),
    decreases j,
{
    lemma_mark_rounds_monotone(m, s, j);
    if j == 0 {
    } else {
        lemma_mark_climb(m, s, (j - 1) as nat);
        let prev = StoreModel::mark_rounds(m, s, (j - 1) as nat);
        let sj = StoreModel::mark_rounds(m, s, j);
        lemma_mark_rounds_commute(m, s, j);
        lemma_mark_children_monotone(m, prev);
        if StoreModel::mark_children(m, prev) == prev {
            assert(sj == prev);
            assert(StoreModel::mark_children(m, sj) == sj);
        } else {
            // The round changed something; marks only grow, so some new
            // position got marked and the count strictly increased.
            assert(exists|i: int| 0 <= i < prev.len() && sj[i] != prev[i]) by {
                if forall|i: int| 0 <= i < prev.len() ==> sj[i] == prev[i] {
                    assert(sj =~= prev);
                }
            }
            let i = choose|i: int| 0 <= i < prev.len() && sj[i] != prev[i];
            lemma_count_lt(prev, sj, i);
        }
    }
}

/// After at least as many rounds as there are positions, one more round
/// changes nothing: every markable chain has been walked to its end.
proof fn lemma_mark_rounds_fixed(m: StoreModel, s: Seq<bool>, k: nat, root: int)
    requires
        k >= s.len(),
        0 <= root < s.len(),
        s[root],
    ensures
        StoreModel::mark_children(m, StoreModel::mark_rounds(m, s, k))
            == StoreModel::mark_rounds(m, s, k),
    decreases k,
{
    let n = s.len();
    lemma_count_pos(s, root);
    lemma_mark_climb(m, s, n);
    let sn = StoreModel::mark_rounds(m, s, n);
    lemma_mark_rounds_monotone(m, s, n);
    lemma_count_max(sn);
    assert(StoreModel::mark_children(m, sn) == sn);
    if k > n {
        // Every later round repeats the fixed point.
        lemma_mark_rounds_fixed(m, s, (k - 1) as nat, root);
        lemma_mark_rounds_commute(m, s, k);
    }
}

/// Law: recursive despawning only destroys. It creates and resurrects
/// nothing and changes no record apart from liveness; the root dies; and
/// every live hierarchy child of an entity it killed dies with it, so a
/// whole live subtree falls together.
pub proof fn lemma_despawn_recursive_only_kills(m: StoreModel, root: EntityId)
    ensures
        ({
            let r = m.despawned_recursively(root);
            &&& r.recs.len() == m.recs.len()
            &&& forall|i: int|
                0 <= i < m.recs.len() && (#[trigger] r.recs[i]).alive ==> m.recs[i].alive
            &&& forall|i: int|
                0 <= i < m.recs.len() ==> (#[trigger] r.recs[i]) == (RecModel {
                    alive: r.recs[i].alive,
                    ..m.recs[i]
                })
            &&& (m.live(root) ==> !r.live(root))
            &&& forall|c: EntityId|
                m.live(root) && (#[trigger] m.parent_of(c)) is Some && m.live(
                    m.parent_of(c).unwrap(),
                ) && !r.live(m.parent_of(c).unwrap()) ==> !r.live(c)
        }),
{
    let r = m.despawned_recursively(root);
    if m.live(root) {
        let n = m.recs.len();
        let init = StoreModel::init_marks(n, root);
        let closure = StoreModel::mark_rounds(m, init, n);
        lemma_mark_rounds_monotone(m, init, n);
        assert(init[root.0 as int]);
        assert(closure[root.0 as int]);
        assert(!r.live(root));
        assert forall|c: EntityId|
            (#[trigger] m.parent_of(c)) is Some && m.live(m.parent_of(c).unwrap()) && !r.live(
                m.parent_of(c).unwrap(),
            ) implies !r.live(c) by {
            let p = m.parent_of(c).unwrap();
            // The parent was live and ended up dead, so the closure marks
            // it; the closure is a fixed point of the marking round, so the
            // child is marked too, hence dead.
            assert(closure[p.0 as int]);
            lemma_mark_rounds_fixed(m, init, n, root.0 as int);
            assert(StoreModel::mark_children(m, closure)[c.0 as int]);
            assert(closure[c.0 as int]);
        }
    }
}

/// The attributes a freshly sent event entity carries.
pub struct EventBundle {
    pub tags: Vec<u64>,
    pub attrs: Vec<(u64, u64)>,
    pub target: Option<Target>,
    pub propagated_from: Option<PropagatedEvent>,
}

/// The attribute map denoted by an association list; a later entry for the
/// same key wins.
pub open spec fn map_of(s: Seq<(u64, u64)>) -> Map<u64, u64>
    decreases s.len(),
{
    if s.len() == 0 {
        Map::empty()
    } else {
        map_of(s.drop_last()).insert(s.last().0, s.last().1)
    }
}

struct EntityRecord {
    alive: bool,
    parent: Option<EntityId>,
    target: Option<EntityId>,
    propagated_from: Option<EntityId>,
    tags: Vec<u64>,
    attrs: Vec<(u64, u64)>,
    ident: Option<CallbackIdent>,
    callback: Option<CallbackSystemInner>,
}

impl EntityRecord {
    spec fn view_rec(self) -> RecModel {
        RecModel {
            alive: self.alive,
            parent: self.parent,
            target: self.target,
            propagated_from: self.propagated_from,
            tags: self.tags@.to_set(),
            attrs: map_of(self.attrs@),
            ident: match self.ident {
                Some(ci) => Some(ci.pred),
                None => None,
            },
            callback: self.callback,
        }
    }
}

/// The entity/attribute store.
pub struct Store {
    slots: Vec<EntityRecord>,
}

impl View for Store {
    type V = StoreModel;

    closed spec fn view(&self) -> StoreModel {
        StoreModel { recs: Seq::new(self.slots@.len(), |i: int| self.slots@[i].view_rec()) }
    }
}

impl Store {
    /// An empty store.
    pub fn new() -> (s: Store)
        ensures
            s@.recs.len() == 0,
    {
        let s = Store { slots: Vec::new() };
        proof {
            assert(s@.recs =~= Seq::<RecModel>::empty());
        }
        s
    }

    /// How many entities have ever been created.
    pub fn slot_count(&self) -> (r: usize)
        ensures
            r == self@.recs.len(),
    {
        self.slots.len()
    }

    /// Creates a fresh, empty, live entity and returns its handle.
    pub fn create(&mut self) -> (r: EntityId)
        requires
            old(self)@.recs.len() < usize::MAX,
        ensures
            final(self)@ == old(self)@.created(),
            r == old(self)@.new_id(),
            final(self)@.live(r),
    {
        let id = EntityId(self.slots.len());
        self.slots.push(
            EntityRecord {
                alive: true,
                parent: None,
                target: None,
                propagated_from: None,
                tags: Vec::new(),
                attrs: Vec::new(),
                ident: None,
                callback: None,
            },
        );
        proof {
            assert(self@.recs =~~= old(self)@.recs.push(RecModel::empty()));
        }
        id
    }

    /// Creates a live entity carrying the bundle's attachments.
    pub fn spawn(&mut self, bundle: EventBundle) -> (r: EntityId)
        requires
            old(self)@.recs.len() < usize::MAX,
        ensures
            final(self)@ == old(self)@.spawned(
                match bundle.target {
                    Some(t) => Some(t.0),
                    None => None,
                },
                match bundle.propagated_from {
                    Some(p) => Some(p.0),
                    None => None,
                },
                bundle.tags@.to_set(),
                map_of(bundle.attrs@),
            ),
            r == old(self)@.new_id(),
            final(self)@.live(r),
    {
        let id = EntityId(self.slots.len());
        let EventBundle { tags, attrs, target, propagated_from } = bundle;
        let rec = EntityRecord {
            alive: true,
            parent: None,
            target: match target {
                Some(t) => Some(t.0),
                None => None,
            },
            propagated_from: match propagated_from {
                Some(p) => Some(p.0),
                None => None,
            },
            tags,
            attrs,
            ident: None,
            callback: None,
        };
        self.slots.push(rec);
        proof {
            assert(self@.recs =~~= old(self)@.spawned(
                match bundle.target {
                    Some(t) => Some(t.0),
                    None => None,
                },
                match bundle.propagated_from {
                    Some(p) => Some(p.0),
                    None => None,
                },
                bundle.tags@.to_set(),
                map_of(bundle.attrs@),
            ).recs);
        }
        id
    }

    /// True if the handle names a live entity.
    pub fn contains(&self, e: EntityId) -> (r: bool)
        ensures
            r == self@.live(e),
    {
        e.0 < self.slots.len() && self.slots[e.0].alive
    }

    /// Marks the entity dead; all its attachments become unreadable. A dead
    /// or unknown handle is left unchanged.
    pub fn destroy(&mut self, e: EntityId)
        ensures
            final(self)@ == old(self)@.destroyed(e),
    {
        if e.0 < self.slots.len() && self.slots[e.0].alive {
            self.slots[e.0].alive = false;
            proof {
                assert(self@.recs =~~= old(self)@.destroyed(e).recs);
            }
        }
    }

    /// The entity's parent in the hierarchy, if it is live and has one.
    pub fn parent_of(&self, e: EntityId) -> (r: Option<EntityId>)
        ensures
            r == self@.parent_of(e),
    {
        if e.0 < self.slots.len() && self.slots[e.0].alive {
            self.slots[e.0].parent
        } else {
            None
        }
    }

    /// Makes `child` a hierarchy child of `parent`. A dead or unknown child
    /// handle is left unchanged; the parent handle may dangle.
    pub fn add_child(&mut self, parent: EntityId, child: EntityId)
        ensures
            final(self)@ == old(self)@.parent_set(child, parent),
    {
        if child.0 < self.slots.len() && self.slots[child.0].alive {
            self.slots[child.0].parent = Some(parent);
            proof {
                assert(self@.recs =~~= old(self)@.parent_set(child, parent).recs);
            }
        }
    }

    /// The entity's `Target` record, if it is live and has one.
    pub fn target_of(&self, e: EntityId) -> (r: Option<EntityId>)
        ensures
            r == self@.target_of(e),
    {
        if e.0 < self.slots.len() && self.slots[e.0].alive {
            self.slots[e.0].target
        } else {
            None
        }
    }

    /// Sets the entity's `Target` record. A dead or unknown handle is left
    /// unchanged.
    pub fn set_target(&mut self, e: EntityId, target: EntityId)
        ensures
            final(self)@ == old(self)@.target_set(e, target),
    {
        if e.0 < self.slots.len() && self.slots[e.0].alive {
            self.slots[e.0].target = Some(target);
            proof {
                assert(self@.recs =~~= old(self)@.target_set(e, target).recs);
            }
        }
    }

    /// The root event this (live) derived event was propagated from.
    pub fn propagated_from(&self, e: EntityId) -> (r: Option<EntityId>)
        ensures
            r == self@.propagated_from_of(e),
    {
        if e.0 < self.slots.len() && self.slots[e.0].alive {
            self.slots[e.0].propagated_from
        } else {
            None
        }
    }

    /// True if the entity is live and carries the tag.
    #[verifier::loop_isolation(false)]
    pub fn has_tag(&self, e: EntityId, tag: u64) -> (r: bool)
        ensures
            r == self@.has_tag(e, tag),
    {
        if e.0 < self.slots.len() && self.slots[e.0].alive {
            let tags = &self.slots[e.0].tags;
            let n = tags.len();
            let mut i: usize = 0;
            while i < n
                invariant
                    i <= n,
                    n == tags@.len(),
                    forall|j: int| 0 <= j < i ==> tags@[j] != tag,
                decreases n - i,
            {
                if tags[i] == tag {
                    proof {
                        assert(tags@.contains(tag));
                    }
                    return true;
                }
                i = i + 1;
            }
            assert(!tags@.contains(tag));
            false
        } else {
            false
        }
    }

    /// Attaches a tag to a live entity; a dead or unknown handle is left
    /// unchanged.
    pub fn insert_tag(&mut self, e: EntityId, tag: u64)
        ensures
            final(self)@ == old(self)@.tag_inserted(e, tag),
    {
        if e.0 < self.slots.len() && self.slots[e.0].alive {
            let ghost before = self.slots@[e.0 as int].tags@;
            self.slots[e.0].tags.push(tag);
            proof {
                assert(before.push(tag).to_set() =~= before.to_set().insert(tag)) by {
                    assert forall|x: u64| before.push(tag).contains(x)
                        implies before.contains(x) || x == tag by {
                        let i = choose|i: int| 0 <= i < before.push(tag).len()
                            && before.push(tag)[i] == x;
                        if i < before.len() {
                            assert(before[i] == x);
                        }
                    }
                    assert forall|x: u64| before.contains(x)
                        implies before.push(tag).contains(x) by {
                        let i = choose|i: int| 0 <= i < before.len() && before[i] == x;
                        assert(before.push(tag)[i] == x);
                    }
                    assert(before.push(tag)[before.len() as int] == tag);
                }
                assert(self@.recs =~~= old(self)@.tag_inserted(e, tag).recs);
            }
        }
    }

    /// Detaches a tag from a live entity; a dead or unknown handle is left
    /// unchanged.
    #[verifier::loop_isolation(false)]
    pub fn remove_tag(&mut self, e: EntityId, tag: u64)
        ensures
            final(self)@ == old(self)@.tag_removed(e, tag),
    {
        if e.0 < self.slots.len() && self.slots[e.0].alive {
            let tags = &self.slots[e.0].tags;
            let n = tags.len();
            let mut kept: Vec<u64> = Vec::new();
            let mut i: usize = 0;
            while i < n
                invariant
                    i <= n,
                    n == tags@.len(),
                    tags == &self.slots@[e.0 as int].tags,
                    e.0 < self.slots@.len(),
                    forall|j: int| 0 <= j < kept@.len() ==> kept@[j] != tag,
                    forall|j: int|
                        0 <= j < kept@.len() ==> #[trigger] tags@.contains(kept@[j]),
                    forall|x: u64|
                        x != tag && tags@.subrange(0, i as int).contains(x)
                            ==> kept@.contains(x),
                decreases n - i,
            {
                let v = tags[i];
                if v != tag {
                    kept.push(v);
                }
                proof {
                    assert forall|x: u64|
                        x != tag && tags@.subrange(0, i + 1).contains(x)
                            implies kept@.contains(x) by {
                        let sub = tags@.subrange(0, i + 1);
                        let j = choose|j: int| 0 <= j < sub.len() && sub[j] == x;
                        if j < i {
                            assert(tags@.subrange(0, i as int)[j] == x);
                        }
                    }
                }
                i = i + 1;
            }
            let ghost before = self.slots@[e.0 as int].tags@;
            self.slots[e.0].tags = kept;
            proof {
                assert(before.subrange(0, n as int) =~= before);
                assert(self.slots@[e.0 as int].tags@.to_set() =~= before.to_set().remove(tag));
                assert(self@.recs =~~= old(self)@.tag_removed(e, tag).recs);
            }
        }
    }

    /// The entity's attribute under `key`, if it is live and has one.
    #[verifier::loop_isolation(false)]
    pub fn get_attr(&self, e: EntityId, key: u64) -> (r: Option<u64>)
        ensures
            r == self@.attr_of(e, key),
    {
        if e.0 < self.slots.len() && self.slots[e.0].alive {
            let attrs = &self.slots[e.0].attrs;
            proof {
                assert(attrs@.subrange(0, attrs@.len() as int) =~= attrs@);
            }
            let mut j: usize = attrs.len();
            while j > 0
                invariant
                    j <= attrs@.len(),
                    map_of(attrs@).contains_key(key) == map_of(
                        attrs@.subrange(0, j as int),
                    ).contains_key(key),
                    map_of(attrs@).contains_key(key) ==> map_of(attrs@)[key] == map_of(
                        attrs@.subrange(0, j as int),
                    )[key],
                decreases j,
            {
                proof {
                    assert(attrs@.subrange(0, j as int).drop_last() =~= attrs@.subrange(
                        0,
                        j - 1,
                    ));
                    assert(attrs@.subrange(0, j as int).last() == attrs@[j - 1]);
                }
                let (k, v) = attrs[j - 1];
                if k == key {
                    return Some(v);
                }
                j = j - 1;
            }
            proof {
                assert(attrs@.subrange(0, 0) =~= Seq::<(u64, u64)>::empty());
            }
            None
        } else {
            None
        }
    }

    /// Sets an attribute on a live entity; a dead or unknown handle is left
    /// unchanged.
    pub fn set_attr(&mut self, e: EntityId, key: u64, value: u64)
        ensures
            final(self)@ == old(self)@.attr_set(e, key, value),
    {
        if e.0 < self.slots.len() && self.slots[e.0].alive {
            let ghost before = self.slots@[e.0 as int].attrs@;
            self.slots[e.0].attrs.push((key, value));
            proof {
                assert(before.push((key, value)).drop_last() =~= before);
                assert(self@.recs =~~= old(self)@.attr_set(e, key, value).recs);
            }
        }
    }

    /// Removes an attribute from a live entity; a dead or unknown handle is
    /// left unchanged.
    #[verifier::loop_isolation(false)]
    pub fn remove_attr(&mut self, e: EntityId, key: u64)
        ensures
            final(self)@ == old(self)@.attr_removed(e, key),
    {
        if e.0 < self.slots.len() && self.slots[e.0].alive {
            let attrs = &self.slots[e.0].attrs;
            let n = attrs.len();
            let mut kept: Vec<(u64, u64)> = Vec::new();
            let mut i: usize = 0;
            while i < n
                invariant
                    i <= n,
                    n == attrs@.len(),
                    attrs == &self.slots@[e.0 as int].attrs,
                    e.0 < self.slots@.len(),
                    map_of(kept@) == map_of(attrs@.subrange(0, i as int)).remove(key),
                    forall|j: int| 0 <= j < kept@.len() ==> (#[trigger] kept@[j]).0 != key,
                decreases n - i,
            {
                proof {
                    assert(attrs@.subrange(0, i + 1).drop_last() =~= attrs@.subrange(0, i as int));
                    assert(attrs@.subrange(0, i + 1).last() == attrs@[i as int]);
                }
                let (k, v) = attrs[i];
                if k != key {
                    let ghost kept_before = kept@;
                    kept.push((k, v));
                    proof {
                        assert(kept@.drop_last() =~= kept_before);
                        assert(map_of(kept@) =~= map_of(
                            attrs@.subrange(0, i + 1),
                        ).remove(key));
                    }
                } else {
                    proof {
                        assert(map_of(kept@) =~= map_of(
                            attrs@.subrange(0, i + 1),
                        ).remove(key));
                    }
                }
                i = i + 1;
            }
            let ghost before = self.slots@[e.0 as int].attrs@;
            self.slots[e.0].attrs = kept;
            proof {
                assert(before.subrange(0, n as int) =~= before);
                assert(self@.recs =~~= old(self)@.attr_removed(e, key).recs);
            }
        }
    }

    /// The entity's listener predicate, by reference.
    pub fn get_ident(&self, e: EntityId) -> (r: Option<&CallbackIdent>)
        ensures
            match r {
                Some(ci) => self@.ident_of(e) == Some(ci.pred),
                None => self@.ident_of(e) is None,
            },
    {
        if e.0 < self.slots.len() && self.slots[e.0].alive {
            match &self.slots[e.0].ident {
                Some(ci) => Some(ci),
                None => None,
            }
        } else {
            None
        }
    }

    /// Attaches a listener predicate to a live entity; a dead or unknown
    /// handle is left unchanged.
    pub fn set_ident(&mut self, e: EntityId, ident: CallbackIdent)
        ensures
            final(self)@ == old(self)@.ident_set(e, ident.pred),
    {
        if e.0 < self.slots.len() && self.slots[e.0].alive {
            self.slots[e.0].ident = Some(ident);
            proof {
                assert(self@.recs =~~= old(self)@.ident_set(e, ident.pred).recs);
            }
        }
    }

    /// True if the entity is live and currently holds a callback record.
    pub fn has_callback(&self, e: EntityId) -> (r: bool)
        ensures
            r == (self@.callback_of(e) is Some),
    {
        e.0 < self.slots.len() && self.slots[e.0].alive && self.slots[e.0].callback.is_some()
    }

    /// Takes the callback record off the entity, leaving it absent from the
    /// store for the duration of its own execution.
    pub fn take_callback(&mut self, e: EntityId) -> (r: Option<CallbackSystemInner>)
        ensures
            r == old(self)@.callback_of(e),
            final(self)@ == old(self)@.callback_taken(e),
    {
        if e.0 < self.slots.len() && self.slots[e.0].alive {
            let r = self.slots[e.0].callback.take();
            proof {
                assert(self@.recs =~~= old(self)@.callback_taken(e).recs);
            }
            r
        } else {
            None
        }
    }

    /// Puts a callback record onto a live entity; if the entity is dead or
    /// unknown the record is dropped.
    pub fn insert_callback(&mut self, e: EntityId, cb: CallbackSystemInner)
        ensures
            final(self)@ == old(self)@.callback_put(e, cb),
    {
        if e.0 < self.slots.len() && self.slots[e.0].alive {
            self.slots[e.0].callback = Some(cb);
            proof {
                assert(self@.recs =~~= old(self)@.callback_put(e, cb).recs);
            }
        }
    }

    /// Destroys the entity and, transitively, every live entity whose
    /// parent chain leads to it. The closure is computed by marking rounds
    /// before anything is destroyed, so a cyclic hierarchy cannot make the
    /// walk diverge.
    #[verifier::loop_isolation(false)]
    pub fn despawn_recursive(&mut self, root: EntityId)
        ensures
            final(self)@ == old(self)@.despawned_recursively(root),
    {
        if !self.contains(root) {
            return ;
        }
        let ghost m = self@;
        let n = self.slots.len();
        // Mark the root.
        let mut marked: Vec<bool> = Vec::new();
        let mut i: usize = 0;
        while i < n
            invariant
                i <= n,
                marked@ =~= Seq::new(i as nat, |j: int| j == root.0),
            decreases n - i,
        {
            marked.push(i == root.0);
            proof {
                assert(marked@ =~= Seq::new((i + 1) as nat, |j: int| j == root.0));
            }
            i = i + 1;
        }
        // One marking round per entity reaches the closure: a chain of live
        // entities has at most `n` links.
        let mut round: usize = 0;
        while round < n
            invariant
                round <= n,
                marked@.len() == n,
                self@ == m,
                StoreModel::mark_rounds(m, marked@, (n - round) as nat) == StoreModel::mark_rounds(
                    m,
                    StoreModel::init_marks(n as nat, root),
                    n as nat,
                ),
            decreases n - round,
        {
            let mut next: Vec<bool> = Vec::new();
            let mut i2: usize = 0;
            while i2 < n
                invariant
                    i2 <= n,
                    marked@.len() == n,
                    self@ == m,
                    next@.len() == i2,
                    forall|j: int|
                        0 <= j < i2 ==> next@[j] == StoreModel::mark_children(m, marked@)[j],
                decreases n - i2,
            {
                let by_parent = match self.parent_of(EntityId(i2)) {
                    Some(p) => p.0 < n && marked[p.0],
                    None => false,
                };
                next.push(marked[i2] || by_parent);
                i2 = i2 + 1;
            }
            proof {
                assert(next@ =~= StoreModel::mark_children(m, marked@));
            }
            marked = next;
            round = round + 1;
        }
        // Destroy everything marked.
        let ghost closure = marked@;
        let mut i3: usize = 0;
        while i3 < n
            invariant
                i3 <= n,
                closure == StoreModel::mark_rounds(
                    m,
                    StoreModel::init_marks(n as nat, root),
                    n as nat,
                ),
                closure.len() == n,
                n == m.recs.len(),
                self@.recs =~~= Seq::new(
                    m.recs.len(),
                    |j: int|
                        if j < i3 && closure[j] {
                            RecModel { alive: false, ..m.recs[j] }
                        } else {
                            m.recs[j]
                        },
                ),
            decreases n - i3,
        {
            if marked[i3] {
                self.destroy(EntityId(i3));
            }
            proof {
                assert(self@.recs =~~= Seq::new(
                    m.recs.len(),
                    |j: int|
                        if j < i3 + 1 && closure[j] {
                            RecModel { alive: false, ..m.recs[j] }
                        } else {
                            m.recs[j]
                        },
                ));
            }
            i3 = i3 + 1;
        }
        proof {
            assert(self@ =~~= m.despawned_recursively(root));
        }
    }

    /// Registers a global callback: a fresh entity holding the predicate and
    /// the callback, bound to no hierarchy position.
    pub fn add_callback(&mut self, ident: CallbackIdent, cb: CallbackSystemInner) -> (r: EntityId)
        requires
            old(self)@.recs.len() < usize::MAX,
        ensures
            final(self)@ == old(self)@.created().ident_set(old(self)@.new_id(), ident.pred)
                .callback_put(old(self)@.new_id(), cb),
            r == old(self)@.new_id(),
    {
        let ghost pred = ident.pred;
        let id = self.create();
        self.set_ident(id, ident);
        self.insert_callback(id, cb);
        id
    }

    /// Registers an entity-scoped callback on `owner`: the callback entity
    /// is a hierarchy child of `owner` and its predicate additionally
    /// requires the event to carry a `Target`, so it only fires when
    /// `owner` is the resolved target of the event.
    pub fn add_entity_callback(
        &mut self,
        owner: EntityId,
        ident: CallbackIdent,
        cb: CallbackSystemInner,
    ) -> (r: EntityId)
        requires
            old(self)@.recs.len() < usize::MAX,
        ensures
            final(self)@ == old(self)@.created().ident_set(
                old(self)@.new_id(),
                ListenerIdent::And(Box::new(ListenerIdent::HasTarget), Box::new(ident.pred)),
            ).callback_put(old(self)@.new_id(), cb).parent_set(old(self)@.new_id(), owner),
            r == old(self)@.new_id(),
    {
        let scoped = CallbackIdent::new(
            ListenerIdent::And(Box::new(ListenerIdent::HasTarget), Box::new(ident.pred)),
        );
        let id = self.add_callback(scoped, cb);
        self.add_child(owner, id);
        id
    }
}

} // verus!
