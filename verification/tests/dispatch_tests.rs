//! The dispatch engine's execution protocol: take-and-reinsert, liveness
//! re-validation, and the two listener binding modes.

use event_entities::callback::{
    Act, CallbackIdent, CallbackProgram, CallbackSystemInner, EventType, Guard, ListenerIdent,
    ListenerInput, Op, Selector,
};
use event_entities::dispatch::{run_event_listener_schedule, ListenerReaders};
use event_entities::id::{EntityId, Target};
use event_entities::queue::{send_event, EventEntities};
use event_entities::store::{EventBundle, Store};

const PING: u64 = 1;
const MARKER: u64 = 3;
const SAW_SELF_ABSENT: u64 = 4;
const SAW_SELF_PRESENT: u64 = 5;
const FOLLOW_UP: u64 = 9;

fn ping(store: &mut Store, q: &mut EventEntities, target: Option<EntityId>) -> EntityId {
    send_event(
        store,
        q,
        EventBundle {
            tags: vec![PING],
            attrs: vec![],
            target: target.map(Target),
            propagated_from: None,
        },
    )
}

// A callback that reads itself back from its own owning entity mid-run does
// not find itself present: the record is taken off the store while it runs.
#[test]
fn callback_absent_during_own_run() {
    let mut store = Store::new();
    let mut q = EventEntities::new();
    let mut readers = ListenerReaders::new();
    let owner = store.add_callback(
        CallbackIdent::new(ListenerIdent::HasTag(PING)),
        CallbackSystemInner::new(CallbackProgram {
            ops: vec![
                Op {
                    guard: Guard::CallbackAbsent(Selector::Owner),
                    act: Act::InsertTag(Selector::Owner, SAW_SELF_ABSENT),
                },
                Op {
                    guard: Guard::CallbackPresent(Selector::Owner),
                    act: Act::InsertTag(Selector::Owner, SAW_SELF_PRESENT),
                },
            ],
        }),
    );
    ping(&mut store, &mut q, None);
    assert!(run_event_listener_schedule(&mut store, &mut q, &mut readers, 8));
    assert!(store.has_tag(owner, SAW_SELF_ABSENT));
    assert!(!store.has_tag(owner, SAW_SELF_PRESENT));
    // After the run the callback is back in place.
    assert!(store.has_callback(owner));
}

// A callback stays usable across dispatches: it is reinserted (as `Ready`)
// and fires again for a later event.
#[test]
fn callback_reinserted_and_fires_again() {
    let mut store = Store::new();
    let mut q = EventEntities::new();
    let mut readers = ListenerReaders::new();
    let witness = store.create();
    let _owner = store.add_callback(
        CallbackIdent::new(ListenerIdent::HasTag(PING)),
        CallbackSystemInner::new(CallbackProgram {
            ops: vec![
                Op {
                    guard: Guard::Always,
                    act: Act::InsertTag(Selector::Fixed(witness), MARKER),
                },
            ],
        }),
    );
    ping(&mut store, &mut q, None);
    assert!(run_event_listener_schedule(&mut store, &mut q, &mut readers, 8));
    assert!(store.has_tag(witness, MARKER));

    store.remove_tag(witness, MARKER);
    ping(&mut store, &mut q, None);
    assert!(run_event_listener_schedule(&mut store, &mut q, &mut readers, 8));
    assert!(store.has_tag(witness, MARKER));
}

// A callback that destroys its own owner is not reinserted: the listener
// self-destructs after firing once.
#[test]
fn self_destructing_callback() {
    let mut store = Store::new();
    let mut q = EventEntities::new();
    let mut readers = ListenerReaders::new();
    let witness = store.create();
    let owner = store.add_callback(
        CallbackIdent::new(ListenerIdent::HasTag(PING)),
        CallbackSystemInner::new(CallbackProgram {
            ops: vec![
                Op {
                    guard: Guard::Always,
                    act: Act::InsertTag(Selector::Fixed(witness), MARKER),
                },
                Op { guard: Guard::Always, act: Act::Despawn(Selector::Owner) },
            ],
        }),
    );
    ping(&mut store, &mut q, None);
    assert!(run_event_listener_schedule(&mut store, &mut q, &mut readers, 8));
    assert!(store.has_tag(witness, MARKER));
    assert!(!store.contains(owner));

    // A later event finds no listener.
    store.remove_tag(witness, MARKER);
    ping(&mut store, &mut q, None);
    assert!(run_event_listener_schedule(&mut store, &mut q, &mut readers, 8));
    assert!(!store.has_tag(witness, MARKER));
}

// An event destroyed by an earlier deferred action in the same pass is a
// silent no-op for the remaining matches: the event was cancelled.
#[test]
fn cancelled_event_skips_later_matches() {
    let mut store = Store::new();
    let mut q = EventEntities::new();
    let mut readers = ListenerReaders::new();
    let witness = store.create();
    // Registered first, so it runs first and cancels the event.
    store.add_callback(
        CallbackIdent::new(ListenerIdent::HasTag(PING)),
        CallbackSystemInner::new(CallbackProgram {
            ops: vec![Op { guard: Guard::Always, act: Act::Despawn(Selector::Event) }],
        }),
    );
    store.add_callback(
        CallbackIdent::new(ListenerIdent::HasTag(PING)),
        CallbackSystemInner::new(CallbackProgram {
            ops: vec![
                Op {
                    guard: Guard::Always,
                    act: Act::InsertTag(Selector::Fixed(witness), MARKER),
                },
            ],
        }),
    );
    ping(&mut store, &mut q, None);
    assert!(run_event_listener_schedule(&mut store, &mut q, &mut readers, 8));
    assert!(!store.has_tag(witness, MARKER));
}

// Scoped bindings require their parent to be the event's still-live target;
// a dangling target silently excludes them, while global bindings fire
// regardless of the target.
#[test]
fn dangling_target_excludes_scoped_candidates() {
    let mut store = Store::new();
    let mut q = EventEntities::new();
    let mut readers = ListenerReaders::new();
    let witness = store.create();
    let target = store.create();
    store.add_entity_callback(
        target,
        CallbackIdent::new(ListenerIdent::HasTag(PING)),
        CallbackSystemInner::new(CallbackProgram {
            ops: vec![
                Op {
                    guard: Guard::Always,
                    act: Act::InsertTag(Selector::Fixed(witness), SAW_SELF_PRESENT),
                },
            ],
        }),
    );
    store.add_callback(
        CallbackIdent::new(ListenerIdent::HasTag(PING)),
        CallbackSystemInner::new(CallbackProgram {
            ops: vec![
                Op {
                    guard: Guard::Always,
                    act: Act::InsertTag(Selector::Fixed(witness), MARKER),
                },
            ],
        }),
    );
    ping(&mut store, &mut q, Some(target));
    store.destroy(target);
    assert!(run_event_listener_schedule(&mut store, &mut q, &mut readers, 8));
    assert!(store.has_tag(witness, MARKER));
    assert!(!store.has_tag(witness, SAW_SELF_PRESENT));
}

// A scoped binding never fires for an event without a target: its predicate
// requires the `Target` record.
#[test]
fn scoped_binding_needs_target() {
    let mut store = Store::new();
    let mut q = EventEntities::new();
    let mut readers = ListenerReaders::new();
    let witness = store.create();
    let owner = store.create();
    store.add_entity_callback(
        owner,
        CallbackIdent::new(ListenerIdent::HasTag(PING)),
        CallbackSystemInner::new(CallbackProgram {
            ops: vec![
                Op {
                    guard: Guard::Always,
                    act: Act::InsertTag(Selector::Fixed(witness), MARKER),
                },
            ],
        }),
    );
    ping(&mut store, &mut q, None);
    assert!(run_event_listener_schedule(&mut store, &mut q, &mut readers, 8));
    assert!(!store.has_tag(witness, MARKER));
}

// A fired cascade settles within one external invocation: a callback that
// sends a follow-up event sees the follow-up dispatched by the same call.
#[test]
fn fixed_point_within_one_invocation() {
    let mut store = Store::new();
    let mut q = EventEntities::new();
    let mut readers = ListenerReaders::new();
    let witness = store.create();
    store.add_callback(
        CallbackIdent::new(ListenerIdent::HasTag(PING)),
        CallbackSystemInner::new(CallbackProgram {
            ops: vec![
                Op {
                    guard: Guard::Always,
                    act: Act::Send(event_entities::callback::SendSpec {
                        tags: vec![FOLLOW_UP],
                        attrs: vec![],
                        target: None,
                    }),
                },
            ],
        }),
    );
    store.add_callback(
        CallbackIdent::new(ListenerIdent::HasTag(FOLLOW_UP)),
        CallbackSystemInner::new(CallbackProgram {
            ops: vec![
                Op {
                    guard: Guard::Always,
                    act: Act::InsertTag(Selector::Fixed(witness), MARKER),
                },
            ],
        }),
    );
    ping(&mut store, &mut q, None);
    assert!(run_event_listener_schedule(&mut store, &mut q, &mut readers, 8));
    assert!(store.has_tag(witness, MARKER));
}

// A perpetual self-trigger exhausts any pass budget without settling.
#[test]
fn unsettled_cascade_reports_failure() {
    let mut store = Store::new();
    let mut q = EventEntities::new();
    let mut readers = ListenerReaders::new();
    store.add_callback(
        CallbackIdent::new(ListenerIdent::HasTag(PING)),
        CallbackSystemInner::new(CallbackProgram {
            ops: vec![
                Op {
                    guard: Guard::Always,
                    act: Act::Send(event_entities::callback::SendSpec {
                        tags: vec![PING],
                        attrs: vec![],
                        target: None,
                    }),
                },
            ],
        }),
    );
    ping(&mut store, &mut q, None);
    assert!(!run_event_listener_schedule(&mut store, &mut q, &mut readers, 4));
}

#[test]
fn event_type_identity() {
    let root = EntityId(1);
    let derived = EntityId(2);
    let plain = EventType::Event(root);
    let prop = EventType::Propagated { propagated: derived, event: root };
    assert!(!plain.is_propagated());
    assert!(prop.is_propagated());
    assert_eq!(plain.id(), root);
    // The id used for matching and for the callback is the root's.
    assert_eq!(prop.id(), root);
    let input = ListenerInput { event_type: prop };
    assert_eq!(input.id(), root);
    assert!(input.is_propagated());
    assert_eq!(input.event_type(), prop);
}
