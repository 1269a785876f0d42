use arena_core::arena::{reconcile_destructions, try_move};
use arena_core::bounds::Bounds;
use arena_core::collider::Collider2d;
use arena_core::components::CollisionEvent;
use arena_core::ecs::Ecs;
use arena_core::entity::EntityId;
use arena_core::events::EventQueue;
use arena_core::quad_tree::{Handle, MoveSummary, QuadTree, NODE_COUNT};

fn world() -> QuadTree {
    QuadTree::new(Bounds::new(0, 0, 1024, 1024))
}

fn spawn(ecs: &mut Ecs<u32>, tree: &mut QuadTree, cx: i64, cy: i64, size: u32) -> EntityId {
    let id = ecs.create_entity();
    ecs.add_collider(id, Collider2d::new(id, Bounds::with_center_position(cx, cy, size, size)));
    tree.place(ecs, id);
    id
}

fn node_of(ecs: &Ecs<u32>, id: EntityId) -> Option<Handle> {
    ecs.get_collider(id).and_then(|c| c.get_area_handle())
}

#[test]
fn bounds_getters_and_center_placement() {
    let b = Bounds::new(1, 2, 10, 20);
    assert_eq!(b.get_position(), (1, 2));
    assert_eq!(b.get_size(), (10, 20));
    assert_eq!(b.get_half_size(), (5, 10));
    let c = Bounds::with_center_position(5, 5, 10, 10);
    assert_eq!(c.get_position(), (0, 0));
    let mut odd = Bounds::new(0, 0, 11, 7);
    odd.set_center_position(100, 100);
    assert_eq!(odd.get_position(), (95, 97));
    odd.set_position(-3, 4);
    assert_eq!(odd.get_position(), (-3, 4));
    assert_eq!(odd.get_size(), (11, 7));
    assert_eq!(b.get_corners(), [(1, 2), (11, 2), (11, 22), (1, 22)]);
    assert_eq!(b.recentered(0, 0), Some(Bounds::new(-5, -10, 10, 20)));
    assert_eq!(b.recentered(i64::MIN, 0), None);
}

#[test]
fn overlap_counts_touching_edges() {
    let a = Bounds::new(0, 0, 10, 10);
    assert!(a.has_collision(&Bounds::new(10, 10, 5, 5)));
    assert!(a.has_collision(&Bounds::new(-5, 3, 5, 1)));
    assert!(a.has_collision(&Bounds::new(2, 2, 1, 1)));
    assert!(!a.has_collision(&Bounds::new(11, 0, 5, 5)));
    assert!(!a.has_collision(&Bounds::new(0, -6, 10, 5)));
}

#[test]
fn containment_is_strict() {
    let outer = Bounds::new(0, 0, 100, 100);
    assert!(Bounds::new(1, 1, 98, 98).is_inside_other(&outer));
    assert!(!Bounds::new(0, 1, 50, 50).is_inside_other(&outer));
    assert!(!Bounds::new(1, 1, 99, 50).is_inside_other(&outer));
    assert!(!outer.is_inside_other(&outer));
    assert!(outer.is_inside(50, 50));
    assert!(!outer.is_inside(0, 50));
    assert!(!outer.is_inside(50, 100));
}

#[test]
fn tree_is_built_whole_in_breadth_first_order() {
    let t = world();
    assert_eq!(NODE_COUNT, 21);
    assert_eq!(t.node_bounds_of(t.root()), Some(Bounds::new(0, 0, 1024, 1024)));
    assert_eq!(t.node_bounds_of(Handle::new(1)), Some(Bounds::new(0, 0, 512, 512)));
    assert_eq!(t.node_bounds_of(Handle::new(2)), Some(Bounds::new(0, 512, 512, 512)));
    assert_eq!(t.node_bounds_of(Handle::new(3)), Some(Bounds::new(512, 512, 512, 512)));
    assert_eq!(t.node_bounds_of(Handle::new(4)), Some(Bounds::new(512, 0, 512, 512)));
    assert_eq!(t.node_bounds_of(Handle::new(5)), Some(Bounds::new(0, 0, 256, 256)));
    assert_eq!(t.node_bounds_of(Handle::new(15)), Some(Bounds::new(768, 768, 256, 256)));
    assert_eq!(t.node_bounds_of(Handle::new(21)), None);
}

#[test]
fn placement_picks_deepest_strict_container() {
    let t = world();
    let inner = Bounds::new(300, 300, 100, 100);
    assert_eq!(t.get_place_node(&inner), Some(Handle::new(7)));
    // A leaf's own bounds are flush with its parent's edges.
    let leaf = t.node_bounds_of(Handle::new(13)).unwrap();
    assert_eq!(leaf, Bounds::new(512, 512, 256, 256));
    assert_eq!(t.get_place_node(&leaf), Some(t.root()));
    // Straddling the middle split stays at the root.
    assert_eq!(t.get_place_node(&Bounds::new(500, 100, 30, 30)), Some(t.root()));
    // Touching or crossing the world edge places nowhere.
    assert_eq!(t.get_place_node(&Bounds::new(0, 10, 10, 10)), None);
    assert_eq!(t.get_place_node(&Bounds::new(1015, 1015, 10, 10)), None);
    assert_eq!(t.get_place_node(&Bounds::new(0, 0, 1024, 1024)), None);
}

#[test]
fn scenario_place_then_move_to_far_corner() {
    let mut ecs: Ecs<u32> = Ecs::new();
    let mut t = world();
    // Centered at (5, 5) the box is flush with the world's edge: no node
    // strictly contains it.
    let flush = spawn(&mut ecs, &mut t, 5, 5, 10);
    assert_eq!(node_of(&ecs, flush), None);
    // One unit further in, it goes to the deepest bottom-left node.
    let a = spawn(&mut ecs, &mut t, 6, 6, 10);
    assert_eq!(node_of(&ecs, a), Some(Handle::new(5)));
    assert!(t.has_object(Handle::new(5), a));
    // Crossing the outer edge: refused, flag set, nothing else moves.
    let r = t.move_object(&mut ecs, a, 1020, 1020);
    assert_eq!(r, MoveSummary { can_move: false, collide_ent: None });
    let c = ecs.get_collider(a).unwrap();
    assert!(c.is_reached_border());
    assert_eq!(c.get_bounds(), Bounds::new(1, 1, 10, 10));
    assert_eq!(c.get_area_handle(), Some(Handle::new(5)));
    // Inside the far corner: relocated to the opposite deepest node.
    let r = t.move_object(&mut ecs, a, 1000, 1000);
    assert_eq!(r, MoveSummary { can_move: true, collide_ent: None });
    let c = ecs.get_collider(a).unwrap();
    assert!(!c.is_reached_border());
    assert_eq!(c.get_bounds(), Bounds::new(995, 995, 10, 10));
    assert_eq!(c.get_area_handle(), Some(Handle::new(15)));
    assert!(t.has_object(Handle::new(15), a));
    assert!(!t.has_object(Handle::new(5), a));
}

#[test]
fn blocked_move_leaves_collider_unchanged() {
    let mut ecs: Ecs<u32> = Ecs::new();
    let mut t = world();
    let a = spawn(&mut ecs, &mut t, 100, 100, 10);
    let b = spawn(&mut ecs, &mut t, 200, 200, 10);
    let before = ecs.get_collider(b).unwrap().get_bounds();
    let handle = node_of(&ecs, b);
    let r = t.move_object(&mut ecs, b, 105, 105);
    assert_eq!(r, MoveSummary { can_move: false, collide_ent: Some(a) });
    let c = ecs.get_collider(b).unwrap();
    assert_eq!(c.get_bounds(), before);
    assert_eq!(c.get_area_handle(), handle);
    assert!(!c.is_reached_border());
    assert!(t.has_object(handle.unwrap(), b));
}

#[test]
fn touching_edges_block_a_move() {
    let mut ecs: Ecs<u32> = Ecs::new();
    let mut t = world();
    let a = spawn(&mut ecs, &mut t, 100, 100, 10);
    let b = spawn(&mut ecs, &mut t, 300, 100, 10);
    // b's left edge lands on x = 105, a's right edge.
    let r = t.move_object(&mut ecs, b, 110, 100);
    assert_eq!(r.collide_ent, Some(a));
    let r = t.move_object(&mut ecs, b, 111, 100);
    assert!(r.can_move);
}

#[test]
fn ignored_entity_never_blocks() {
    let mut ecs: Ecs<u32> = Ecs::new();
    let mut t = world();
    let shooter = spawn(&mut ecs, &mut t, 100, 100, 20);
    let other = spawn(&mut ecs, &mut t, 300, 300, 20);
    let bullet = ecs.create_entity();
    ecs.add_collider(
        bullet,
        Collider2d::with_ignore(bullet, Bounds::with_center_position(150, 150, 4, 4), vec![shooter]),
    );
    t.place(&mut ecs, bullet);
    assert!(ecs.get_collider(bullet).unwrap().is_ignored_entity(shooter));
    assert!(!ecs.get_collider(bullet).unwrap().is_ignored_entity(other));
    let r = t.move_object(&mut ecs, bullet, 100, 100);
    assert_eq!(r, MoveSummary { can_move: true, collide_ent: None });
    let r = t.move_object(&mut ecs, bullet, 300, 300);
    assert_eq!(r, MoveSummary { can_move: false, collide_ent: Some(other) });
}

#[test]
fn dead_or_colliderless_entities_do_not_move_or_block() {
    let mut ecs: Ecs<u32> = Ecs::new();
    let mut t = world();
    let a = spawn(&mut ecs, &mut t, 100, 100, 10);
    let b = spawn(&mut ecs, &mut t, 300, 300, 10);
    let bare = ecs.create_entity();
    assert_eq!(t.move_object(&mut ecs, bare, 50, 50), MoveSummary { can_move: false, collide_ent: None });
    ecs.remove_entity(a);
    // The dead entity is still listed, but no longer blocks.
    assert_eq!(t.move_object(&mut ecs, b, 100, 100), MoveSummary { can_move: true, collide_ent: None });
    assert_eq!(t.move_object(&mut ecs, a, 500, 500), MoveSummary { can_move: false, collide_ent: None });
}

#[test]
fn collision_query_reports_blocker() {
    let mut ecs: Ecs<u32> = Ecs::new();
    let mut t = world();
    let a = spawn(&mut ecs, &mut t, 700, 700, 40);
    let b = spawn(&mut ecs, &mut t, 100, 100, 10);
    let cb = ecs.get_collider(b).unwrap().clone();
    assert_eq!(t.is_collisions_exist(&ecs, b, &cb, &Bounds::new(690, 690, 5, 5)), Some(a));
    assert_eq!(t.is_collisions_exist(&ecs, b, &cb, &Bounds::new(600, 600, 5, 5)), None);
    assert_eq!(t.is_collisions_exist(&ecs, a, &cb, &Bounds::new(690, 690, 5, 5)), None);
}

#[test]
fn try_move_queues_collision_notice_on_mover() {
    let mut ecs: Ecs<u32> = Ecs::new();
    let mut t = world();
    let mut notices: EventQueue<CollisionEvent> = EventQueue::new();
    let a = spawn(&mut ecs, &mut t, 100, 100, 10);
    let b = spawn(&mut ecs, &mut t, 200, 200, 10);
    let r = try_move(&mut t, &mut ecs, &mut notices, b, 100, 104);
    assert!(!r.can_move);
    assert_eq!(notices.flush(b), vec![CollisionEvent::OnEntity(a)]);
    assert!(notices.flush(a).is_empty());
    let r = try_move(&mut t, &mut ecs, &mut notices, b, 150, 150);
    assert!(r.can_move);
    assert!(notices.flush(b).is_empty());
}

#[test]
fn reconciliation_clears_columns_and_tree() {
    let mut ecs: Ecs<u32> = Ecs::new();
    let mut t = world();
    let x = spawn(&mut ecs, &mut t, 300, 300, 10);
    let keep = spawn(&mut ecs, &mut t, 310, 320, 4);
    ecs.add_component(x, 0, || 1);
    ecs.add_component(x, 1, || 2);
    let hx = node_of(&ecs, x).unwrap();
    let hk = node_of(&ecs, keep).unwrap();
    ecs.remove_entity(x);
    assert!(t.has_object(hx, x));
    let gone = reconcile_destructions(&mut ecs, &mut t);
    assert_eq!(gone, vec![x]);
    for i in 0..NODE_COUNT {
        assert!(!t.has_object(Handle::new(i), x));
    }
    assert!(t.has_object(hk, keep));
    let again = ecs.create_entity();
    assert_eq!(again, x);
    assert_eq!(ecs.get_component(x, 0), None);
    assert_eq!(ecs.get_component(x, 1), None);
    assert!(ecs.get_collider(x).is_none());
}

#[test]
fn explicit_removal_from_tree() {
    let mut ecs: Ecs<u32> = Ecs::new();
    let mut t = world();
    let x = spawn(&mut ecs, &mut t, 300, 300, 10);
    let h = node_of(&ecs, x).unwrap();
    t.on_entity_removed(x);
    assert!(!t.has_object(h, x));
}

#[test]
fn replacing_moves_membership_to_the_new_node() {
    let mut ecs: Ecs<u32> = Ecs::new();
    let mut t = world();
    let a = spawn(&mut ecs, &mut t, 100, 100, 10);
    assert_eq!(node_of(&ecs, a), Some(Handle::new(5)));
    ecs.get_collider_mut(a).unwrap().set_position(900, 900);
    t.place(&mut ecs, a);
    assert_eq!(node_of(&ecs, a), Some(Handle::new(15)));
    let listed: Vec<usize> = (0..NODE_COUNT).filter(|i| t.has_object(Handle::new(*i), a)).collect();
    assert_eq!(listed, vec![15]);
}

#[test]
fn reconciliation_clears_a_destroyed_id_even_if_reused() {
    let mut ecs: Ecs<u32> = Ecs::new();
    let mut t = world();
    let x = spawn(&mut ecs, &mut t, 100, 100, 10);
    ecs.remove_entity(x);
    let y = spawn(&mut ecs, &mut t, 700, 300, 10);
    assert_eq!(y, x);
    let h = node_of(&ecs, y).unwrap();
    assert_eq!(h, Handle::new(18));
    let listed: Vec<usize> = (0..NODE_COUNT).filter(|i| t.has_object(Handle::new(*i), y)).collect();
    assert_eq!(listed, vec![18]);
    let gone = reconcile_destructions(&mut ecs, &mut t);
    assert_eq!(gone, vec![x]);
    assert!(ecs.get_collider(y).is_none());
    for i in 0..NODE_COUNT {
        assert!(!t.has_object(Handle::new(i), y));
    }
}

#[test]
fn move_after_move_is_refused_on_overlap() {
    let mut ecs: Ecs<u32> = Ecs::new();
    let mut t = world();
    let a = spawn(&mut ecs, &mut t, 100, 100, 10);
    let b = spawn(&mut ecs, &mut t, 900, 900, 10);
    assert!(t.move_object(&mut ecs, a, 600, 600).can_move);
    let before = ecs.get_collider(b).unwrap().get_bounds();
    let r = t.move_object(&mut ecs, b, 605, 605);
    assert_eq!(r, MoveSummary { can_move: false, collide_ent: Some(a) });
    assert_eq!(ecs.get_collider(b).unwrap().get_bounds(), before);
}
