//! An in-process, entity-addressable event bus.
//!
//! Events are not plain values on a queue but addressable records ("event
//! entities") held in an entity/attribute store: they can carry attached
//! data, reference one another, be mutated by listeners, and be destroyed
//! explicitly. Consumers read events through cursor-based readers, and a
//! dispatch engine looks up per-event listener callbacks by matching a
//! predicate against the event record, with upward propagation through a
//! parent/child hierarchy.

pub mod callback;
pub mod damage;
pub mod dispatch;
pub mod id;
pub mod listener;
pub mod queue;
pub mod reader;
pub mod store;
