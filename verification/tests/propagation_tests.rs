//! Hierarchy propagation and the bubble order of scoped callbacks.

use event_entities::callback::{
    Act, CallbackIdent, CallbackProgram, CallbackSystemInner, Guard, ListenerIdent, Op, Selector,
    SendSpec,
};
use event_entities::dispatch::{run_event_listener_schedule, ListenerReaders};
use event_entities::id::{EntityId, Target};
use event_entities::queue::{send_event, EventEntities};
use event_entities::reader::EventEntityReader;
use event_entities::store::{EventBundle, Store};

const TEST_EVENT: u64 = 1;
const STOP: u64 = 2;
const MARKER: u64 = 3;

fn marking_callback() -> CallbackSystemInner {
    CallbackSystemInner::new(CallbackProgram {
        ops: vec![
            Op { guard: Guard::Always, act: Act::InsertTag(Selector::Target, MARKER) },
            Op {
                guard: Guard::HasTag(Selector::Target, STOP),
                act: Act::Despawn(Selector::Event),
            },
        ],
    })
}

fn chain_scenario() -> (Store, EventEntities, Vec<EntityId>) {
    let mut store = Store::new();
    let mut q = EventEntities::new();
    let mut readers = ListenerReaders::new();

    // Ten chained entities, each the parent of the previous one, each with
    // a scoped callback that marks its entity and, on the entity tagged
    // `STOP`, destroys the event.
    let mut entities: Vec<EntityId> = Vec::new();
    for i in 0..10 {
        let entity = store.create();
        store.add_entity_callback(
            entity,
            CallbackIdent::new(ListenerIdent::HasTag(TEST_EVENT)),
            marking_callback(),
        );
        if i > 0 {
            store.add_child(entity, entities[i - 1]);
        }
        if i == 5 {
            store.insert_tag(entity, STOP);
        }
        entities.push(entity);
    }

    send_event(
        &mut store,
        &mut q,
        EventBundle {
            tags: vec![TEST_EVENT],
            attrs: vec![],
            target: Some(Target(entities[0])),
            propagated_from: None,
        },
    );
    let settled = run_event_listener_schedule(&mut store, &mut q, &mut readers, 16);
    assert!(settled);
    (store, q, entities)
}

// Events are propagated up the tree, and propagation stops where the event
// is despawned by a callback on the way up.
#[test]
fn lib_test_propagate_events() {
    let (store, _q, entities) = chain_scenario();
    for (n, entity) in entities.into_iter().enumerate() {
        if n > 5 {
            assert!(!store.has_tag(entity, MARKER));
        } else {
            assert!(store.has_tag(entity, MARKER));
        }
    }
}

// The superseded engine variant shares the observable behaviour: the same
// chain, the same stop entity, the same markers.
#[test]
fn event_listener_test_propagate_events() {
    let (store, _q, entities) = chain_scenario();
    for (n, entity) in entities.into_iter().enumerate() {
        if n > 5 {
            assert!(!store.has_tag(entity, MARKER));
        } else {
            assert!(store.has_tag(entity, MARKER));
        }
    }
}

// Scoped listeners on root, A, B, C fire in exactly that bubble order for
// an event targeted at the deepest entity of the chain.
#[test]
fn bubble_order() {
    let mut store = Store::new();
    let mut q = EventEntities::new();
    let mut readers = ListenerReaders::new();

    // parent(root) = a, parent(a) = b, parent(b) = c.
    let root = store.create();
    let a = store.create();
    let b = store.create();
    let c = store.create();
    store.add_child(a, root);
    store.add_child(b, a);
    store.add_child(c, b);

    // Each level's callback sends a level-tagged event; the queue records
    // the firing order.
    for (level, entity) in [(100u64, root), (101, a), (102, b), (103, c)] {
        store.add_entity_callback(
            entity,
            CallbackIdent::new(ListenerIdent::HasTag(TEST_EVENT)),
            CallbackSystemInner::new(CallbackProgram {
                ops: vec![
                    Op {
                        guard: Guard::Always,
                        act: Act::Send(
                            SendSpec { tags: vec![level], attrs: vec![], target: None },
                        ),
                    },
                ],
            }),
        );
    }

    send_event(
        &mut store,
        &mut q,
        EventBundle {
            tags: vec![TEST_EVENT],
            attrs: vec![],
            target: Some(Target(root)),
            propagated_from: None,
        },
    );
    let settled = run_event_listener_schedule(&mut store, &mut q, &mut readers, 16);
    assert!(settled);

    let mut all = EventEntityReader::new();
    let fired: Vec<u64> = all
        .read(&q)
        .into_iter()
        .filter_map(|e| (100u64..=103u64).find(|lvl| store.has_tag(e, *lvl)))
        .collect();
    assert_eq!(fired, vec![100, 101, 102, 103]);
}

// A propagated derivative is reclaimed independently of its root, and the
// target swap is undone after each callback run.
#[test]
fn swap_target_restored_after_dispatch() {
    let mut store = Store::new();
    let mut q = EventEntities::new();
    let mut readers = ListenerReaders::new();

    let t0 = store.create();
    let t1 = store.create();
    store.add_child(t1, t0);
    store.add_entity_callback(
        t1,
        CallbackIdent::new(ListenerIdent::HasTag(TEST_EVENT)),
        marking_callback(),
    );

    let root = send_event(
        &mut store,
        &mut q,
        EventBundle {
            tags: vec![TEST_EVENT],
            attrs: vec![],
            target: Some(Target(t0)),
            propagated_from: None,
        },
    );
    let settled = run_event_listener_schedule(&mut store, &mut q, &mut readers, 16);
    assert!(settled);

    // The scoped callback at the ancestor saw the swapped-in target and
    // marked it; afterwards the root's own target is restored.
    assert!(store.has_tag(t1, MARKER));
    assert_eq!(store.target_of(root), Some(t0));
    let mut all = EventEntityReader::new();
    let derived: Vec<EntityId> =
        all.read(&q).into_iter().filter(|e| store.propagated_from(*e) == Some(root)).collect();
    assert_eq!(derived.len(), 1);
    assert_eq!(store.target_of(derived[0]), Some(t1));
}
