//! Properties that relate several operations of the store, the queues and
//! the spatial index.
use vstd::prelude::*;
use crate::arena::reconciled_all;
use crate::bounds::{overlaps, Rect};
use crate::collider::Collider2d;
use crate::ecs::{destroys, Ecs};
use crate::entity::EntityId;
use crate::events::EventQueue;
use crate::quad_tree::{placement_ok, MoveSummary, QuadTree, NODE_COUNT};

verus! {

/// Destroying `x` and then allocating hands `x` out again: it is alive, and
/// no column (nor the collider column) holds a value for it until one is
/// added.
pub proof fn law_id_reuse<C>(e0: Ecs<C>, e1: Ecs<C>, e2: Ecs<C>, x: EntityId, y: EntityId)
    requires
        e0.wf(),
        e0.alive(x.0 as int),
        Ecs::destroyed(e0, e1, x),
        Ecs::created(e1, e2, y),
    ensures
        y == x,
        e2.alive(x.0 as int),
        forall|k: int| #[trigger] e2.comp(k, x.0 as int) is None,
        e2.collider(x.0 as int) is None,
{
    assert(e1.directory().free.last() == x.id());
}

/// Right after a destruction an id always waits for reuse, so allocation
/// needs no further room.
pub proof fn law_allocation_after_destroy<C>(e0: Ecs<C>, e1: Ecs<C>, x: EntityId)
    requires
        Ecs::destroyed(e0, e1, x),
    ensures
        e1.can_create(),
{
}

/// A refused move that is not a boundary refusal leaves the mover's
/// collider and every member set as they were.
pub proof fn law_move_refusal_changes_nothing<C>(
    t0: QuadTree,
    t1: QuadTree,
    e0: Ecs<C>,
    e1: Ecs<C>,
    entity: EntityId,
    x: i64,
    y: i64,
    r: MoveSummary,
)
    requires
        QuadTree::moved(t0, t1, e0, e1, entity, x, y, r),
        !r.can_move,
        e0.alive(entity.0 as int) && e0.collider(entity.0 as int) is Some
            ==> t0.move_target(e0.collider(entity.0 as int)->0, x, y) is Some,
    ensures
        e1.collider(entity.0 as int) == e0.collider(entity.0 as int),
        e1.same_but_collider(&e0, entity.0 as int),
        forall|j: int, e: EntityId| #[trigger] t1.is_member(j, e) == t0.is_member(j, e),
{
}

/// An entity on the collider's ignore-list never blocks it, whatever the
/// overlap.
pub proof fn law_ignored_entity_never_blocks<C>(t: QuadTree, ecs: Ecs<C>, entity: EntityId, collider: Collider2d, q: Rect, a: EntityId)
    requires
        collider.ignores().contains(a),
    ensures
        forall|i: int| !#[trigger] t.blocker_at(&ecs, entity, collider, q, i, a),
{
}

/// Any other live, non-ignored entity in a visited node whose collider
/// overlaps the box is a collision.
pub proof fn law_other_overlap_detected<C>(t: QuadTree, ecs: Ecs<C>, entity: EntityId, collider: Collider2d, q: Rect, i: int, m: EntityId)
    requires
        0 <= i < NODE_COUNT,
        t.visited(i, q),
        t.is_member(i, m),
        m != entity,
        !collider.ignores().contains(m),
        ecs.alive(m.0 as int),
        ecs.collider(m.0 as int) is Some,
        overlaps(ecs.collider(m.0 as int)->0.spec_bounds()@, q),
    ensures
        t.has_blocker(&ecs, entity, collider, q),
{
    assert(t.blocker_at(&ecs, entity, collider, q, i, m));
}

/// Pushing `e1`, `e2` to the empty queue of `x` and `e3` to that of `y`,
/// then flushing `x`, yields exactly `[e1, e2]`; `y`'s queue keeps `e3`.
pub proof fn law_event_fifo_and_isolation<E>(
    q0: EventQueue<E>,
    q1: EventQueue<E>,
    q2: EventQueue<E>,
    q3: EventQueue<E>,
    q4: EventQueue<E>,
    x: EntityId,
    y: EntityId,
    e1: E,
    e2: E,
    e3: E,
    out: Seq<E>,
)
    requires
        x != y,
        q0.queue(x.0 as int) == Seq::<E>::empty(),
        EventQueue::pushed(q0, q1, x, e1),
        EventQueue::pushed(q1, q2, x, e2),
        EventQueue::pushed(q2, q3, y, e3),
        EventQueue::flushed(q3, q4, x, out),
    ensures
        out == seq![e1, e2],
        q4.queue(y.0 as int) == q3.queue(y.0 as int),
        q4.queue(y.0 as int) == q0.queue(y.0 as int).push(e3),
{
    assert(q3.queue(x.0 as int) == q2.queue(x.0 as int));
    assert(out =~= seq![e1, e2]);
}

/// After `x` is destroyed and a reconciliation pass runs, no column holds a
/// value for `x` and no node of the tree lists it.
pub proof fn law_destruction_reconciliation<C>(e0: Ecs<C>, e1: Ecs<C>, e2: Ecs<C>, t1: QuadTree, t2: QuadTree, x: EntityId)
    requires
        e0.wf(),
        e0.alive(x.0 as int),
        Ecs::destroyed(e0, e1, x),
        reconciled_all(e1, e2, t1, t2),
    ensures
        forall|k: int| #[trigger] e2.comp(k, x.0 as int) is None,
        e2.collider(x.0 as int) is None,
        forall|j: int| !#[trigger] t2.is_member(j, x),
{
    let lc = e1.lifecycle();
    assert(destroys(lc[lc.len() - 1], x.0 as int));
}

/// Reconciliation keeps the placement invariant: it clears an entity's
/// collider and its tree membership together.
pub proof fn law_reconcile_keeps_placement<C>(e0: Ecs<C>, e1: Ecs<C>, t0: QuadTree, t1: QuadTree)
    requires
        placement_ok(t0, e0),
        reconciled_all(e0, e1, t0, t1),
    ensures
        placement_ok(t1, e1),
{
    assert forall|j: int, e: EntityId| #[trigger] t1.is_member(j, e) implies {
        let c = e1.collider(e.0 as int);
        &&& c is Some
        &&& c->0.spec_area_handle() matches Some(h) && h.idx() == j
        &&& crate::bounds::within(c->0.spec_bounds()@, t1.node_bounds(j)@)
    } by {
        assert(t0.is_member(j, e));
        t0.lemma_member_index(j, e);
        assert(t1.node_bounds(j) == t0.node_bounds(j));
    }
}

} // verus!
