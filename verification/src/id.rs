//! Opaque handles into the entity/attribute store, and the two marker
//! records that the event bus itself attaches to event entities.

use vstd::prelude::*;

verus! {

/// An opaque, comparable handle to an entity in the store.
///
/// Handles support equality and liveness checks only; the index is never
/// reused, so a handle stays distinct from every handle created later.
#[derive(Clone, Copy, PartialEq, Eq, Structural, Debug)]
pub struct EntityId(pub usize);

/// Attached to an event entity to name the entity the event concerns.
/// Hierarchy-scoped listeners only fire when their owner matches it.
#[derive(Clone, Copy, PartialEq, Eq, Structural, Debug)]
pub struct Target(pub EntityId);

/// Attached to a derived event created by hierarchy propagation, naming
/// the root event it was derived from.
#[derive(Clone, Copy, PartialEq, Eq, Structural, Debug)]
pub struct PropagatedEvent(pub EntityId);

} // verus!
