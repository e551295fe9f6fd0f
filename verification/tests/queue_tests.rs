//! The queue's double-buffered retention and the cursor readers.

use event_entities::id::{EntityId, Target};
use event_entities::queue::{any_events, send_event, send_event_to, update_events, EventEntities};
use event_entities::reader::EventEntityReader;
use event_entities::store::{EventBundle, Store};

fn plain_bundle() -> EventBundle {
    EventBundle { tags: vec![], attrs: vec![], target: None, propagated_from: None }
}

#[test]
fn send_advance_counts() {
    let mut q = EventEntities::new();
    assert!(q.is_empty());
    q.send(EntityId(10));
    q.send(EntityId(11));
    q.send(EntityId(12));
    assert_eq!(q.len(), 3);
    assert!(any_events(&q));
    // The first advance reclaims nothing: the older generation was empty.
    let first = q.advance();
    assert_eq!(first.len(), 0);
    assert_eq!(q.len(), 3);
    // The second advance reclaims exactly the three survivors.
    let second = q.advance();
    assert_eq!(second, vec![EntityId(10), EntityId(11), EntityId(12)]);
    assert_eq!(q.len(), 0);
}

#[test]
fn send_batch_counts() {
    let mut q = EventEntities::new();
    q.send_batch(vec![EntityId(1), EntityId(2)]);
    q.send(EntityId(3));
    assert_eq!(q.len(), 3);
    let mut r = EventEntityReader::new();
    assert_eq!(r.read(&q), vec![EntityId(1), EntityId(2), EntityId(3)]);
}

#[test]
fn retention_full_cycle() {
    // An event is visible to a reader created before the send for one full
    // cycle, and reclaimed by the cycle after that.
    let mut store = Store::new();
    let mut q = EventEntities::new();
    let mut reader = EventEntityReader::new();
    let e = send_event(&mut store, &mut q, plain_bundle());
    assert!(store.contains(e));

    // One retention step: still live, still readable.
    update_events(&mut store, &mut q);
    assert!(store.contains(e));
    assert_eq!(reader.read(&q), vec![e]);

    // Second retention step: the entity is destroyed.
    update_events(&mut store, &mut q);
    assert!(!store.contains(e));
    assert_eq!(q.len(), 0);
}

#[test]
fn drain_resets_counters() {
    let mut store = Store::new();
    let mut q = EventEntities::new();
    let a = send_event(&mut store, &mut q, plain_bundle());
    let b = send_event(&mut store, &mut q, plain_bundle());
    q.advance();
    let c = send_event(&mut store, &mut q, plain_bundle());
    let drained = q.drain();
    assert_eq!(drained, vec![a, b, c]);
    assert_eq!(q.len(), 0);
    // A reader that never caught up sees no phantom unread entries.
    let mut behind = EventEntityReader::new();
    assert_eq!(behind.len(&q), 0);
    assert_eq!(behind.read(&q), vec![]);
}

#[test]
fn two_readers_agree_on_order() {
    let mut store = Store::new();
    let mut q = EventEntities::new();
    let mut r1 = EventEntityReader::new();
    let a = send_event(&mut store, &mut q, plain_bundle());
    let b = send_event(&mut store, &mut q, plain_bundle());
    // A reader created now observes only what is sent from now on.
    let mut r2 = EventEntityReader::at_count(q.send_count);
    let c = send_event(&mut store, &mut q, plain_bundle());
    let d = send_event(&mut store, &mut q, plain_bundle());

    let seen1 = r1.read(&q);
    let seen2 = r2.read(&q);
    assert_eq!(seen1, vec![a, b, c, d]);
    assert_eq!(seen2, vec![c, d]);
    // The later reader's view is a suffix of the earlier one's: no shared
    // event is observed in a different order.
    assert_eq!(&seen1[seen1.len() - seen2.len()..], &seen2[..]);
    // Exactly once: a second read yields nothing.
    assert_eq!(r1.read(&q), vec![]);
    assert_eq!(r2.read(&q), vec![]);
}

#[test]
fn reader_count_matches_bulk_read() {
    let mut store = Store::new();
    let mut q = EventEntities::new();
    let _a = send_event(&mut store, &mut q, plain_bundle());
    let _b = send_event(&mut store, &mut q, plain_bundle());
    update_events(&mut store, &mut q);
    let c = send_event(&mut store, &mut q, plain_bundle());
    let d = send_event(&mut store, &mut q, plain_bundle());
    update_events(&mut store, &mut q);
    // The first two events are reclaimed now; a reader from the start of
    // history is clamped to the oldest retained event instead of
    // underflowing, losing only the already-reclaimed events.
    let mut behind = EventEntityReader::new();
    assert_eq!(behind.len(&q), 2);
    assert!(!behind.is_empty(&q));
    let seen = behind.read(&q);
    assert_eq!(seen, vec![c, d]);
    assert_eq!(seen.len(), 2);
    assert_eq!(behind.len(&q), 0);
}

#[test]
fn clear_skips_unread() {
    let mut q = EventEntities::new();
    q.send(EntityId(7));
    let mut r = EventEntityReader::new();
    r.clear(&q);
    assert_eq!(r.len(&q), 0);
    q.send(EntityId(8));
    assert_eq!(r.read(&q), vec![EntityId(8)]);
}

#[test]
fn bundle_attaches_records() {
    let mut store = Store::new();
    let mut q = EventEntities::new();
    let t = store.create();
    let e = send_event(
        &mut store,
        &mut q,
        EventBundle {
            tags: vec![4, 4, 9],
            attrs: vec![(1, 10), (2, 20), (1, 30)],
            target: Some(Target(t)),
            propagated_from: None,
        },
    );
    assert!(store.has_tag(e, 4));
    assert!(store.has_tag(e, 9));
    assert!(!store.has_tag(e, 5));
    // A later entry for the same key wins.
    assert_eq!(store.get_attr(e, 1), Some(30));
    assert_eq!(store.get_attr(e, 2), Some(20));
    assert_eq!(store.get_attr(e, 3), None);
    assert_eq!(store.target_of(e), Some(t));
    assert_eq!(store.propagated_from(e), None);
}

#[test]
fn send_event_to_sets_target() {
    let mut store = Store::new();
    let mut q = EventEntities::new();
    let t = store.create();
    let e = send_event_to(
        &mut store,
        &mut q,
        t,
        EventBundle { tags: vec![8], attrs: vec![], target: None, propagated_from: None },
    );
    assert_eq!(store.target_of(e), Some(t));
    assert!(store.has_tag(e, 8));
    assert_eq!(q.len(), 1);
}
