//! The entity/attribute store and the listener predicates.

use event_entities::callback::{CallbackIdent, CallbackProgram, CallbackSystemInner, ListenerIdent};
use event_entities::id::Target;
use event_entities::queue::{send_event, EventEntities};
use event_entities::reader::EventEntityReader;
use event_entities::store::{EventBundle, Store};

#[test]
fn create_destroy_liveness() {
    let mut store = Store::new();
    let a = store.create();
    let b = store.create();
    assert_ne!(a, b);
    assert!(store.contains(a));
    assert!(store.contains(b));
    store.destroy(a);
    assert!(!store.contains(a));
    assert!(store.contains(b));
    // Destroyed handles read as absent everywhere.
    assert_eq!(store.parent_of(a), None);
    assert_eq!(store.target_of(a), None);
    assert_eq!(store.get_attr(a, 1), None);
    assert!(!store.has_tag(a, 1));
    // Destroying a dead handle is a silent no-op.
    store.destroy(a);
    assert!(!store.contains(a));
}

#[test]
fn tags_and_attrs() {
    let mut store = Store::new();
    let e = store.create();
    store.insert_tag(e, 5);
    store.insert_tag(e, 5);
    store.insert_tag(e, 6);
    assert!(store.has_tag(e, 5));
    assert!(store.has_tag(e, 6));
    store.remove_tag(e, 5);
    assert!(!store.has_tag(e, 5));
    assert!(store.has_tag(e, 6));

    store.set_attr(e, 1, 10);
    store.set_attr(e, 2, 20);
    store.set_attr(e, 1, 11);
    assert_eq!(store.get_attr(e, 1), Some(11));
    assert_eq!(store.get_attr(e, 2), Some(20));
    store.remove_attr(e, 1);
    assert_eq!(store.get_attr(e, 1), None);
    assert_eq!(store.get_attr(e, 2), Some(20));
}

#[test]
fn hierarchy_links() {
    let mut store = Store::new();
    let parent = store.create();
    let child = store.create();
    assert_eq!(store.parent_of(child), None);
    store.add_child(parent, child);
    assert_eq!(store.parent_of(child), Some(parent));
    assert_eq!(store.parent_of(parent), None);
}

#[test]
fn despawn_recursive_kills_subtree() {
    let mut store = Store::new();
    let root = store.create();
    let a = store.create();
    let b = store.create();
    let c = store.create();
    let unrelated = store.create();
    store.add_child(root, a);
    store.add_child(a, b);
    store.add_child(b, c);
    store.despawn_recursive(root);
    assert!(!store.contains(root));
    assert!(!store.contains(a));
    assert!(!store.contains(b));
    assert!(!store.contains(c));
    assert!(store.contains(unrelated));
}

#[test]
fn predicate_matching() {
    let mut store = Store::new();
    let mut q = EventEntities::new();
    let t = store.create();
    let e = send_event(
        &mut store,
        &mut q,
        EventBundle {
            tags: vec![1],
            attrs: vec![(7, 70)],
            target: Some(Target(t)),
            propagated_from: None,
        },
    );
    let bare = send_event(
        &mut store,
        &mut q,
        EventBundle { tags: vec![2], attrs: vec![], target: None, propagated_from: None },
    );

    assert!(ListenerIdent::HasTag(1).entity_contains(&store, e));
    assert!(!ListenerIdent::HasTag(2).entity_contains(&store, e));
    assert!(ListenerIdent::HasTarget.entity_contains(&store, e));
    assert!(!ListenerIdent::HasTarget.entity_contains(&store, bare));
    assert!(ListenerIdent::HasAttr(7).entity_contains(&store, e));
    assert!(!ListenerIdent::HasAttr(8).entity_contains(&store, e));

    let both = ListenerIdent::And(
        Box::new(ListenerIdent::HasTag(1)),
        Box::new(ListenerIdent::HasTarget),
    );
    assert!(both.entity_contains(&store, e));
    assert!(!both.entity_contains(&store, bare));

    let either = ListenerIdent::Or(
        Box::new(ListenerIdent::HasTag(2)),
        Box::new(ListenerIdent::HasTarget),
    );
    assert!(either.entity_contains(&store, e));
    assert!(either.entity_contains(&store, bare));

    // A dead record satisfies no predicate.
    store.destroy(e);
    assert!(!ListenerIdent::HasTag(1).entity_contains(&store, e));
    assert!(!CallbackIdent::new(ListenerIdent::HasTarget).entity_contains(&store, e));
}

#[test]
fn callback_record_take_and_put() {
    let mut store = Store::new();
    let owner = store.add_callback(
        CallbackIdent::new(ListenerIdent::HasTag(1)),
        CallbackSystemInner::new(CallbackProgram { ops: vec![] }),
    );
    assert!(store.has_callback(owner));
    let taken = store.take_callback(owner);
    assert!(taken.is_some());
    assert!(!store.has_callback(owner));
    assert!(store.take_callback(owner).is_none());
    store.insert_callback(owner, taken.unwrap());
    assert!(store.has_callback(owner));
}

// The query-filtered read yields only events whose records currently
// satisfy the requested shape; a destroyed or mismatching event is skipped
// silently, and the cursor still advances past everything.
#[test]
fn read_matching_skips_nonmatching() {
    let mut store = Store::new();
    let mut q = EventEntities::new();
    let mut reader = EventEntityReader::new();
    let a = send_event(
        &mut store,
        &mut q,
        EventBundle { tags: vec![1], attrs: vec![], target: None, propagated_from: None },
    );
    let b = send_event(
        &mut store,
        &mut q,
        EventBundle { tags: vec![2], attrs: vec![], target: None, propagated_from: None },
    );
    let c = send_event(
        &mut store,
        &mut q,
        EventBundle { tags: vec![1], attrs: vec![], target: None, propagated_from: None },
    );
    store.destroy(c);
    let ident = CallbackIdent::new(ListenerIdent::HasTag(1));
    let seen = reader.read_matching(&q, &store, &ident);
    assert_eq!(seen, vec![a]);
    let _ = b;
    // The cursor moved past the mismatching events too.
    assert_eq!(reader.len(&q), 0);
    assert_eq!(reader.read_matching(&q, &store, &ident), vec![]);
}
