use arena_core::components::{Direction, PlayerAction, PlayerController, PlayerState};
use arena_core::ecs::{Component, Ecs, EcsEvent};
use arena_core::entity::{EntityDirectory, EntityId};
use arena_core::events::EventQueue;
use arena_core::world::World;

#[test]
fn directory_issues_fresh_ids_in_order() {
    let mut dir = EntityDirectory::new();
    let a = dir.create_entity_handle();
    let b = dir.create_entity_handle();
    let c = dir.create_entity_handle();
    assert_eq!((a, b, c), (EntityId(0), EntityId(1), EntityId(2)));
    assert!(dir.is_entity_alive(a) && dir.is_entity_alive(b) && dir.is_entity_alive(c));
    assert!(!dir.is_entity_alive(EntityId(3)));
    assert!(!dir.is_entity_alive(EntityId(100_000)));
}

#[test]
fn directory_reuses_most_recently_freed_id() {
    let mut dir = EntityDirectory::new();
    for _ in 0..5 {
        dir.create_entity_handle();
    }
    dir.remove_entity(EntityId(1));
    dir.remove_entity(EntityId(3));
    assert!(!dir.is_entity_alive(EntityId(1)));
    assert!(!dir.is_entity_alive(EntityId(3)));
    assert_eq!(dir.create_entity_handle(), EntityId(3));
    assert_eq!(dir.create_entity_handle(), EntityId(1));
    assert_eq!(dir.create_entity_handle(), EntityId(5));
    assert!(dir.is_entity_alive(EntityId(1)));
}

#[test]
fn directory_grows_past_one_batch() {
    let mut dir = EntityDirectory::new();
    for i in 0..300usize {
        assert_eq!(dir.create_entity_handle(), EntityId(i));
    }
    for i in 0..300usize {
        assert!(dir.is_entity_alive(EntityId(i)));
    }
    assert!(!dir.is_entity_alive(EntityId(300)));
}

#[test]
fn alive_snapshot_is_a_copy() {
    let mut dir = EntityDirectory::new();
    let a = dir.create_entity_handle();
    let snap = dir.get_alive_check();
    dir.remove_entity(a);
    assert!(snap.get(0));
    assert!(!dir.is_entity_alive(a));
    assert!(!snap.get(1));
}

#[test]
fn world_columns_are_created_on_first_insert() {
    let mut w: World<u32> = World::new();
    assert!(!w.is_component_exist(2));
    w.add_component(EntityId(4), 2, 40);
    assert!(w.is_component_exist(2));
    assert!(!w.is_component_exist(1));
    assert_eq!(w.get_component(EntityId(4), 2), Some(&40));
    assert_eq!(w.get_component(EntityId(3), 2), None);
    assert_eq!(w.borrow_component_vec(2).unwrap().len(), 5);
    if let Some(v) = w.get_component_mut(EntityId(4), 2) {
        *v = 41;
    }
    assert_eq!(w.get_component(EntityId(4), 2), Some(&41));
    w.add_component(EntityId(4), 2, 42);
    assert_eq!(w.get_component(EntityId(4), 2), Some(&42));
    w.remove_entity(EntityId(4));
    assert_eq!(w.get_component(EntityId(4), 2), None);
    assert!(w.is_component_exist(2));
}

#[test]
fn ecs_reads_skip_dead_entities() {
    let mut ecs: Ecs<u32> = Ecs::new();
    let a = ecs.create_entity();
    ecs.add_component(a, 0, || 7);
    assert_eq!(ecs.get_component(a, 0), Some(&7));
    ecs.remove_entity(a);
    assert!(!ecs.is_alive(a));
    assert_eq!(ecs.get_component(a, 0), None);
    assert!(ecs.get_component_mut(a, 0).is_none());
}

#[test]
fn ecs_lifecycle_events_are_queued_then_drained() {
    let mut ecs: Ecs<u32> = Ecs::new();
    let a = ecs.create_entity();
    let b = ecs.create_entity();
    ecs.remove_entity(a);
    assert_eq!(
        ecs.pending_events(),
        vec![EcsEvent::EntityCreated(a), EcsEvent::EntityCreated(b), EcsEvent::EntityDestroyed(a)]
    );
    let destroyed = ecs.process_self_events();
    assert_eq!(destroyed, vec![a]);
    assert!(ecs.pending_events().is_empty());
}

#[test]
fn id_reuse_after_reconciliation_has_no_components() {
    let mut ecs: Ecs<u32> = Ecs::new();
    let x = ecs.create_entity();
    ecs.add_component(x, 0, || 1);
    ecs.add_component(x, 1, || 2);
    ecs.remove_entity(x);
    ecs.process_self_events();
    let y = ecs.create_entity();
    assert_eq!(y, x);
    assert!(ecs.is_alive(x));
    assert_eq!(ecs.get_component(x, 0), None);
    assert_eq!(ecs.get_component(x, 1), None);
    assert!(ecs.get_collider(x).is_none());
    ecs.add_component(x, 0, || 9);
    assert_eq!(ecs.get_component(x, 0), Some(&9));
}

#[test]
fn destruction_clears_every_column_only_after_reconciliation() {
    let mut ecs: Ecs<u32> = Ecs::new();
    let x = ecs.create_entity();
    let other = ecs.create_entity();
    ecs.add_component(x, 0, || 10);
    ecs.add_component(x, 1, || 11);
    ecs.add_component(other, 0, || 20);
    ecs.remove_entity(x);
    assert_eq!(ecs.get_component(x, 0), None);
    assert_eq!(ecs.visit_all(0), vec![other]);
    ecs.process_self_events();
    let y = ecs.create_entity();
    assert_eq!(y, x);
    assert_eq!(ecs.get_component(x, 0), None);
    assert_eq!(ecs.get_component(x, 1), None);
    assert_eq!(ecs.get_component(other, 0), Some(&20));
}

#[test]
fn visit_all_lists_live_holders_in_id_order() {
    let mut ecs: Ecs<u32> = Ecs::new();
    let ids: Vec<EntityId> = (0..6).map(|_| ecs.create_entity()).collect();
    for id in &ids {
        ecs.add_component(*id, 0, || 1);
    }
    ecs.add_component(ids[1], 1, || 1);
    ecs.add_component(ids[3], 1, || 1);
    ecs.add_component(ids[4], 1, || 1);
    ecs.add_component(ids[3], 2, || 1);
    ecs.add_component(ids[4], 2, || 1);
    ecs.add_component(ids[5], 2, || 1);
    ecs.remove_entity(ids[4]);
    assert_eq!(ecs.visit_all(0), vec![ids[0], ids[1], ids[2], ids[3], ids[5]]);
    assert_eq!(ecs.visit_all2(0, 1), vec![ids[1], ids[3]]);
    assert_eq!(ecs.visit_all3(0, 1, 2), vec![ids[3]]);
    assert_eq!(ecs.visit_all(7), Vec::<EntityId>::new());
    assert!(ecs.is_componet_exist(2));
    assert!(!ecs.is_componet_exist(7));
}

#[test]
fn process_events_reaches_only_live_listeners() {
    let mut ecs: Ecs<PlayerController> = Ecs::new();
    let first = ecs.create_entity();
    let second = ecs.create_entity();
    let third = ecs.create_entity();
    let up = Direction { x: 0, y: 1 };
    ecs.add_component(first, 0, || PlayerController::new(first, 0, up));
    ecs.add_component(second, 0, || PlayerController::new(second, 1, up));
    ecs.add_component(third, 0, || PlayerController::new(third, 2, up));
    ecs.remove_entity(third);
    let mut actions: EventQueue<PlayerAction> = EventQueue::new();
    actions.push(first, PlayerAction::MoveLeft);
    actions.push(first, PlayerAction::Shoot);
    actions.push(third, PlayerAction::MoveRight);
    ecs.process_events(&actions, 0);
    let c1 = *ecs.get_component(first, 0).unwrap();
    assert_eq!(c1.direction, Direction { x: -1, y: 0 });
    assert_eq!(c1.state, PlayerState::Move);
    let c2 = *ecs.get_component(second, 0).unwrap();
    assert_eq!(c2.direction, up);
    assert_eq!(c2.state, PlayerState::Idle);
    // Queues are not cleared by delivery.
    assert_eq!(actions.flush(first), vec![PlayerAction::MoveLeft, PlayerAction::Shoot]);
}

#[test]
fn visit_hands_slot_to_closure_and_stores_result() {
    let mut ecs: Ecs<u32> = Ecs::new();
    let a = ecs.create_entity();
    let b = ecs.create_entity();
    ecs.add_component(b, 0, || 5);
    ecs.visit(b, 0, |v| v.map(|x| x * 2));
    assert_eq!(ecs.get_component(b, 0), Some(&10));
    // Slot `a` exists and is empty; the closure may fill it.
    ecs.visit(a, 0, |v| if v.is_none() { Some(1) } else { v });
    assert_eq!(ecs.get_component(a, 0), Some(&1));
    ecs.remove_entity(b);
    ecs.visit(b, 0, |_| Some(99));
    ecs.process_self_events();
    assert_eq!(ecs.create_entity(), b);
    assert_eq!(ecs.get_component(b, 0), None);
}

#[test]
fn visit2_hands_two_slots_together() {
    let mut ecs: Ecs<u32> = Ecs::new();
    let a = ecs.create_entity();
    ecs.add_component(a, 0, || 3);
    ecs.add_component(a, 1, || 4);
    ecs.visit2(a, 0, 1, |x, y| (y, x));
    assert_eq!(ecs.get_component(a, 0), Some(&4));
    assert_eq!(ecs.get_component(a, 1), Some(&3));
    let far = ecs.create_entity();
    ecs.add_component(far, 0, || 8);
    // Column 1 does not reach `far`: nothing happens.
    ecs.visit2(far, 0, 1, |_, _| (None, Some(0)));
    assert_eq!(ecs.get_component(far, 0), Some(&8));
    assert_eq!(ecs.get_component(far, 1), None);
}

#[test]
fn components_report_their_entity() {
    let up = Direction { x: 0, y: 1 };
    assert_eq!(PlayerController::new(EntityId(3), 0, up).get_entity_id(), EntityId(3));
    assert_eq!(arena_core::components::Bullet::new(EntityId(4), EntityId(1), 2).get_entity_id(), EntityId(4));
    assert_eq!(arena_core::components::Damagable::new(EntityId(5), 2).get_entity_id(), EntityId(5));
}

#[test]
fn id_reuse_before_reconciliation_starts_empty() {
    let mut ecs: Ecs<u32> = Ecs::new();
    let x = ecs.create_entity();
    ecs.add_component(x, 0, || 1);
    ecs.remove_entity(x);
    let y = ecs.create_entity();
    assert_eq!(y, x);
    assert_eq!(ecs.get_component(x, 0), None);
    ecs.add_component(x, 0, || 2);
    assert_eq!(ecs.get_component(x, 0), Some(&2));
    // The pending destruction notice still clears the id's slots.
    let cleared = ecs.process_self_events();
    assert_eq!(cleared, vec![x]);
    assert!(ecs.is_alive(x));
    assert_eq!(ecs.get_component(x, 0), None);
}

#[test]
fn absent_kind_holds_nothing() {
    let mut ecs: Ecs<u32> = Ecs::new();
    let a = ecs.create_entity();
    assert_eq!(ecs.get_component(a, 3), None);
    assert!(ecs.visit_all(3).is_empty());
    ecs.add_component(a, 0, || 1);
    assert_eq!(ecs.get_component(a, 3), None);
}
