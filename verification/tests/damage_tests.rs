//! The damage pipeline and the health arithmetic.

use event_entities::damage::{
    run_damage_schedule, DamageReaders, Health, ATTACK_ATTR, DAMAGE_ATTR, HEALTH_MAX_ATTR,
    HEALTH_VALUE_ATTR, INSTIGATOR_ATTR, KILL_TAG,
};
use event_entities::id::{EntityId, Target};
use event_entities::queue::{send_event, EventEntities};
use event_entities::reader::EventEntityReader;
use event_entities::store::{EventBundle, Store};

#[test]
fn health_arithmetic() {
    let mut h = Health::new(10);
    assert_eq!(h.value, 10);
    assert_eq!(h.max, 10);
    h.add(5);
    assert_eq!(h.value, 10);
    h.sub(3);
    assert_eq!(h.value, 7);
    h.sub(15);
    assert_eq!(h.value, 0);
    h.shift(4);
    assert_eq!(h.value, 4);
    h.shift(100);
    assert_eq!(h.value, 10);
    h.shift(-25);
    assert_eq!(h.value, 0);
    h.shift(i64::MAX);
    assert_eq!(h.value, 10);
    h.shift(i64::MIN);
    assert_eq!(h.value, 0);
    h.reset();
    assert_eq!(h.value, 10);
    h.add(u32::MAX);
    assert_eq!(h.value, 10);
}

fn victim_with_health(store: &mut Store, health: u64) -> EntityId {
    let v = store.create();
    store.set_attr(v, HEALTH_VALUE_ATTR, health);
    store.set_attr(v, HEALTH_MAX_ATTR, health);
    v
}

fn attack(store: &mut Store, q: &mut EventEntities, target: EntityId, damage: u64) -> EntityId {
    send_event(
        store,
        q,
        EventBundle {
            tags: vec![],
            attrs: vec![(DAMAGE_ATTR, damage)],
            target: Some(Target(target)),
            propagated_from: None,
        },
    )
}

// A lethal attack enqueues the kill event and processes it in the same
// schedule invocation: the victim is gone after one external call.
#[test]
fn lethal_damage_settles_in_one_invocation() {
    let mut store = Store::new();
    let mut q = EventEntities::new();
    let mut readers = DamageReaders::new();
    let victim = victim_with_health(&mut store, 10);
    let minion = store.create();
    store.add_child(victim, minion);
    let attack_ev = attack(&mut store, &mut q, victim, 10);
    store.set_attr(attack_ev, INSTIGATOR_ATTR, 77);

    let settled = run_damage_schedule(&mut store, &mut q, &mut readers, 8);
    assert!(settled);
    assert!(!store.contains(victim));
    // The kill despawns the whole subtree under the victim.
    assert!(!store.contains(minion));

    // The kill event records the attack and the instigator it inherited.
    let mut all = EventEntityReader::new();
    let kills: Vec<EntityId> =
        all.read(&q).into_iter().filter(|e| store.has_tag(*e, KILL_TAG)).collect();
    assert_eq!(kills.len(), 1);
    assert_eq!(store.get_attr(kills[0], ATTACK_ATTR), Some(attack_ev.0 as u64));
    assert_eq!(store.get_attr(kills[0], INSTIGATOR_ATTR), Some(77));
    assert_eq!(store.target_of(kills[0]), Some(victim));
}

#[test]
fn partial_damage_sends_no_kill() {
    let mut store = Store::new();
    let mut q = EventEntities::new();
    let mut readers = DamageReaders::new();
    let victim = victim_with_health(&mut store, 10);
    attack(&mut store, &mut q, victim, 4);

    let settled = run_damage_schedule(&mut store, &mut q, &mut readers, 8);
    assert!(settled);
    assert!(store.contains(victim));
    assert_eq!(store.get_attr(victim, HEALTH_VALUE_ATTR), Some(6));
    // Only the attack event itself is in the queue: no kill was sent.
    assert_eq!(q.len(), 1);
}

#[test]
fn overkill_saturates_at_zero() {
    let mut store = Store::new();
    let mut q = EventEntities::new();
    let mut readers = DamageReaders::new();
    let victim = victim_with_health(&mut store, 3);
    attack(&mut store, &mut q, victim, 50);
    assert!(run_damage_schedule(&mut store, &mut q, &mut readers, 8));
    assert!(!store.contains(victim));
}

// An attack on a target without health, or on a destroyed target, is
// silently skipped.
#[test]
fn attack_without_health_is_skipped() {
    let mut store = Store::new();
    let mut q = EventEntities::new();
    let mut readers = DamageReaders::new();
    let bystander = store.create();
    attack(&mut store, &mut q, bystander, 10);
    let doomed = victim_with_health(&mut store, 5);
    attack(&mut store, &mut q, doomed, 10);
    store.destroy(doomed);
    assert!(run_damage_schedule(&mut store, &mut q, &mut readers, 8));
    assert!(store.contains(bystander));
    assert_eq!(q.len(), 2);
}
