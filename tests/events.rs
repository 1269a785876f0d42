use arena_core::components::{
    Bullet, CollisionEvent, Damagable, Direction, PlayerAction, PlayerController, PlayerState,
};
use arena_core::entity::EntityId;
use arena_core::events::{EventQueue, EventSystem};

#[test]
fn event_system_keeps_push_order() {
    let mut q: EventSystem<PlayerAction> = EventSystem::new();
    q.push_event(PlayerAction::MoveTop);
    q.push_event(PlayerAction::MoveRight);
    assert_eq!(q.get_events(), vec![PlayerAction::MoveTop, PlayerAction::MoveRight]);
    let mut c = PlayerController::new(EntityId(0), 0, Direction { x: 0, y: -1 });
    q.process_event(&mut c);
    assert_eq!(c.direction, Direction { x: 1, y: 0 });
    assert_eq!(c.state, PlayerState::Move);
    // Delivery does not consume.
    assert_eq!(q.get_events().len(), 2);
    assert_eq!(q.drain(), vec![PlayerAction::MoveTop, PlayerAction::MoveRight]);
    assert!(q.get_events().is_empty());
    q.push_event(PlayerAction::Shoot);
    q.clear_all();
    assert!(q.drain().is_empty());
}

#[test]
fn per_entity_queues_are_fifo_and_isolated() {
    let x = EntityId(2);
    let y = EntityId(5);
    let mut q: EventQueue<CollisionEvent> = EventQueue::new();
    let e1 = CollisionEvent::OnEntity(EntityId(10));
    let e2 = CollisionEvent::OnEntity(EntityId(11));
    let e3 = CollisionEvent::OnEntity(EntityId(12));
    q.push(x, e1);
    q.push(x, e2);
    q.push(y, e3);
    assert_eq!(q.flush(x), vec![e1, e2]);
    assert_eq!(q.flush(x), Vec::<CollisionEvent>::new());
    assert_eq!(q.flush(y), vec![e3]);
}

#[test]
fn dispatch_delivers_one_entity_queue() {
    let a = EntityId(0);
    let b = EntityId(1);
    let mut q: EventQueue<CollisionEvent> = EventQueue::new();
    q.push(a, CollisionEvent::OnEntity(EntityId(7)));
    q.push(b, CollisionEvent::OnEntity(EntityId(8)));
    let mut bullet = Bullet::new(a, EntityId(3), 4);
    q.dispatch(a, &mut bullet);
    assert_eq!(bullet.target, Some(EntityId(7)));
    let mut idle = Bullet::new(EntityId(9), EntityId(3), 4);
    q.dispatch(EntityId(9), &mut idle);
    assert_eq!(idle.target, None);
    q.clear_all();
    assert!(q.flush(a).is_empty());
    assert!(q.flush(b).is_empty());
}

#[test]
fn controller_follows_actions() {
    let mut q: EventSystem<PlayerAction> = EventSystem::new();
    let start = Direction { x: 0, y: 1 };
    let mut c = PlayerController::new(EntityId(0), 0, start);
    q.push_event(PlayerAction::MoveDown);
    q.push_event(PlayerAction::Shoot);
    q.process_event(&mut c);
    assert_eq!(c.direction, Direction { x: 0, y: -1 });
    assert_eq!(c.state, PlayerState::Move);
    q.clear_all();
    q.push_event(PlayerAction::NoAction);
    q.process_event(&mut c);
    assert_eq!(c.direction, Direction { x: 0, y: -1 });
    assert_eq!(c.state, PlayerState::Idle);
}

#[test]
fn bullet_records_and_consumes_its_target() {
    let mut b = Bullet::new(EntityId(4), EntityId(1), 3);
    assert_eq!(b.get_damage(), 3);
    assert_eq!(b.get_owner(), EntityId(1));
    assert_eq!(b.consume_target(), None);
    b.target = Some(EntityId(6));
    assert_eq!(b.consume_target(), Some(EntityId(6)));
    assert_eq!(b.consume_target(), None);
}

#[test]
fn damage_wears_health_down_to_zero() {
    let mut d = Damagable::new(EntityId(0), 10);
    assert!(!d.do_damage(4));
    assert_eq!(d.health, 6);
    assert!(!d.is_dead());
    assert!(d.do_damage(6));
    assert_eq!(d.health, 0);
    assert!(d.is_dead());
    let mut e = Damagable::new(EntityId(1), 3);
    assert!(e.do_damage(100));
    assert_eq!(e.health, 0);
    let mut f = Damagable::new(EntityId(2), 5);
    f.kill();
    assert!(f.is_dead());
}
