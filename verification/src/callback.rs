//! Listener registrations: the predicate that decides whether a callback
//! applies to an event record, and the callback itself, written as a small
//! command program that the dispatch engine interprets with full access to
//! the store.

use vstd::prelude::*;

use crate::id::EntityId;

verus! {

/// A predicate over an event record's current attribute set, composable by
/// logical AND and OR. It decides whether a registered callback applies to
/// a given event.
pub enum ListenerIdent {
    /// The event record carries the given tag.
    HasTag(u64),
    /// The event record carries a `Target`.
    HasTarget,
    /// The event record carries an attribute under the given key.
    HasAttr(u64),
    /// Both predicates accept the record.
    And(Box<ListenerIdent>, Box<ListenerIdent>),
    /// At least one predicate accepts the record.
    Or(Box<ListenerIdent>, Box<ListenerIdent>),
}

/// The identifying predicate attached to a callback registration entity.
pub struct CallbackIdent {
    pub pred: ListenerIdent,
}

impl CallbackIdent {
    /// A registration predicate from a record predicate.
    pub fn new(pred: ListenerIdent) -> (r: CallbackIdent)
        ensures
            r.pred == pred,
    {
        CallbackIdent { pred }
    }
}

/// Names an entity relative to the callback invocation at hand.
#[derive(Clone, Copy, PartialEq, Eq, Structural, Debug)]
pub enum Selector {
    /// The current `Target` of the root event record.
    Target,
    /// The root event record itself.
    Event,
    /// The entity owning the callback being run.
    Owner,
    /// A fixed entity.
    Fixed(EntityId),
}

/// A condition an operation is gated on, evaluated against the store as it
/// stands when the operation is reached.
#[derive(Clone, Copy, PartialEq, Eq, Structural, Debug)]
pub enum Guard {
    Always,
    /// The selected entity is live and carries the tag.
    HasTag(Selector, u64),
    /// The selected entity is live and does not carry the tag.
    LacksTag(Selector, u64),
    /// The selected entity is live and its attribute equals the value.
    AttrEq(Selector, u64, u64),
    /// The selected entity is live and holds a callback record.
    CallbackPresent(Selector),
    /// The selected entity is live and holds no callback record.
    CallbackAbsent(Selector),
}

/// The payload of an event sent from inside a callback.
pub struct SendSpec {
    pub tags: Vec<u64>,
    pub attrs: Vec<(u64, u64)>,
    pub target: Option<Selector>,
}

/// One effect on the store or the queue.
pub enum Act {
    /// Attach a tag to the selected entity.
    InsertTag(Selector, u64),
    /// Detach a tag from the selected entity.
    RemoveTag(Selector, u64),
    /// Set an attribute on the selected entity.
    SetAttr(Selector, u64, u64),
    /// Remove an attribute from the selected entity.
    RemoveAttr(Selector, u64),
    /// Saturating-subtract the second entity's attribute from the first
    /// entity's attribute: `(destination, key, source, key)`.
    SubAttr(Selector, u64, Selector, u64),
    /// Destroy the selected entity.
    Despawn(Selector),
    /// Create and enqueue a new event entity.
    Send(SendSpec),
}

/// One guarded effect.
pub struct Op {
    pub guard: Guard,
    pub act: Act,
}

/// A callback: a sequence of guarded effects run in order against the
/// store, the queue, and the invocation's dispatch context.
pub struct CallbackProgram {
    pub ops: Vec<Op>,
}

/// A callback registration's state: one-time setup cost is paid on the
/// first execution, after which the callback is reused as `Ready`.
pub enum CallbackSystemInner {
    Pending(CallbackProgram),
    Ready(CallbackProgram),
}

impl CallbackSystemInner {
    /// A freshly registered callback, not yet initialized.
    pub fn new(program: CallbackProgram) -> (r: CallbackSystemInner)
        ensures
            r == CallbackSystemInner::Pending(program),
    {
        CallbackSystemInner::Pending(program)
    }

    /// The callback's program, whichever state it is in.
    pub open spec fn ops_spec(self) -> Seq<Op> {
        match self {
            CallbackSystemInner::Pending(p) => p.ops@,
            CallbackSystemInner::Ready(p) => p.ops@,
        }
    }

    /// The same callback after its first execution.
    pub open spec fn readied(self) -> CallbackSystemInner {
        match self {
            CallbackSystemInner::Pending(p) => CallbackSystemInner::Ready(p),
            CallbackSystemInner::Ready(p) => CallbackSystemInner::Ready(p),
        }
    }
}

/// Whether the event being dispatched is a root event or a propagated
/// derivative, and the ids of the records involved. The id used for
/// predicate matching and for the callback is always the root's.
#[derive(Clone, Copy, PartialEq, Eq, Structural, Debug)]
pub enum EventType {
    Propagated { propagated: EntityId, event: EntityId },
    Event(EntityId),
}

impl EventType {
    /// The root event record's id: for a propagated event, the event it was
    /// derived from.
    pub open spec fn spec_id(self) -> EntityId {
        match self {
            EventType::Propagated { event, .. } => event,
            EventType::Event(event) => event,
        }
    }

    /// The root event record's id.
    pub fn id(&self) -> (r: EntityId)
        ensures
            r == self.spec_id(),
    {
        match self {
            EventType::Propagated { event, .. } => *event,
            EventType::Event(event) => *event,
        }
    }

    /// True if this is a propagated derivative, not the root event.
    pub fn is_propagated(&self) -> (r: bool)
        ensures
            r == (self matches EventType::Propagated { .. }),
    {
        match self {
            EventType::Propagated { .. } => true,
            EventType::Event(_) => false,
        }
    }
}

/// The dispatch context handed to a callback: which event it is being run
/// for. Created immediately before a callback runs and never persisted.
#[derive(Clone, Copy, PartialEq, Eq, Structural, Debug)]
pub struct ListenerInput {
    pub event_type: EventType,
}

impl ListenerInput {
    /// The event this invocation is for.
    pub fn event_type(&self) -> (r: EventType)
        ensures
            r == self.event_type,
    {
        self.event_type
    }

    /// True if the invocation is for a propagated derivative.
    pub fn is_propagated(&self) -> (r: bool)
        ensures
            r == (self.event_type matches EventType::Propagated { .. }),
    {
        self.event_type.is_propagated()
    }

    /// The root event record's id.
    pub fn id(&self) -> (r: EntityId)
        ensures
            r == self.event_type.spec_id(),
    {
        self.event_type.id()
    }
}

} // verus!
