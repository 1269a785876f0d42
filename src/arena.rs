//! Glue between the store, the spatial index and the event queues: a move
//! that reports collisions, and the per-tick reconciliation of destroyed
//! entities.
use vstd::prelude::*;
use crate::components::CollisionEvent;
use crate::ecs::{has_id, Ecs};
use crate::entity::EntityId;
use crate::events::EventQueue;
use crate::quad_tree::{MoveSummary, QuadTree};

verus! {

/// `post_e`, `post_t` are `pre_e`, `pre_t` after `reconcile_destructions`.
pub open spec fn reconciled_all<C>(pre_e: Ecs<C>, post_e: Ecs<C>, pre_t: QuadTree, post_t: QuadTree) -> bool {
    &&& Ecs::reconciled(pre_e, post_e)
    &&& post_t.same_shape(&pre_t)
    &&& forall|j: int, e: EntityId| #[trigger] post_t.is_member(j, e) == (pre_t.is_member(j, e) && !pre_e.cleared_by_reconcile(e.0 as int))
}

/// Moves `entity` to center `(x, y)`; when another entity blocks the move,
/// queues a collision notice naming it on `entity`'s own queue.
pub fn try_move<C>(
    tree: &mut QuadTree,
    ecs: &mut Ecs<C>,
    collisions: &mut EventQueue<CollisionEvent>,
    entity: EntityId,
    x: i64,
    y: i64,
) -> (r: MoveSummary)
    requires
        old(tree).wf(),
        entity.0 < usize::MAX,
    ensures
        QuadTree::moved(*old(tree), *final(tree), *old(ecs), *final(ecs), entity, x, y, r),
        match r.collide_ent {
            Some(b) => EventQueue::pushed(*old(collisions), *final(collisions), entity, CollisionEvent::OnEntity(b)),
            None => forall|id: int| #[trigger] final(collisions).queue(id) == old(collisions).queue(id),
        },
{
    let summary = tree.move_object(ecs, entity, x, y);
    match summary.collide_ent {
        Some(b) => {
            collisions.push(entity, CollisionEvent::OnEntity(b));
        },
        None => {},
    }
    summary
}

/// Reconciliation pass: clears every entity destroyed since the last pass
/// from every component column and from every node of the tree.
pub fn reconcile_destructions<C>(ecs: &mut Ecs<C>, tree: &mut QuadTree) -> (r: Vec<EntityId>)
    requires
        old(tree).wf(),
    ensures
        reconciled_all(*old(ecs), *final(ecs), *old(tree), *final(tree)),
        forall|i: int| old(ecs).cleared_by_reconcile(i) <==> has_id(r@, i),
{
    let ids = ecs.process_self_events();
    let ghost e0 = *old(ecs);
    let mut j: usize = 0;
    while j < ids.len()
        invariant
            j <= ids@.len(),
            tree.wf(),
            tree.same_shape(old(tree)),
            forall|a: int| 0 <= a < ids@.len() ==> e0.cleared_by_reconcile(#[trigger] ids@[a].0 as int),
            forall|i: int| e0.cleared_by_reconcile(i) ==> has_id(ids@, i),
            forall|k: int, e: EntityId| #[trigger] tree.is_member(k, e) == (old(tree).is_member(k, e)
                && !has_id(ids@.take(j as int), e.0 as int)),
        decreases ids@.len() - j,
    {
        let id = ids[j];
        tree.on_entity_removed(id);
        proof {
            let s0 = ids@.take(j as int);
            let s1 = ids@.take(j + 1);
            assert forall|e: EntityId| has_id(s1, e.0 as int) == (has_id(s0, e.0 as int) || e == id) by {
                if has_id(s1, e.0 as int) {
                    let a = choose|a: int| 0 <= a < s1.len() && #[trigger] s1[a].0 == e.0;
                    if a < j {
                        assert(s0[a] == s1[a]);
                    } else {
                        assert(s1[a] == id);
                    }
                }
                if has_id(s0, e.0 as int) {
                    let a = choose|a: int| 0 <= a < s0.len() && #[trigger] s0[a].0 == e.0;
                    assert(s1[a] == s0[a]);
                }
                if e == id {
                    assert(s1[j as int] == id);
                }
            }
        }
        j += 1;
    }
    proof {
        assert(ids@.take(ids@.len() as int) =~= ids@);
        assert forall|k: int, e: EntityId| #[trigger] tree.is_member(k, e) == (old(tree).is_member(k, e)
            && !e0.cleared_by_reconcile(e.0 as int)) by {
            if has_id(ids@, e.0 as int) {
                let a = choose|a: int| 0 <= a < ids@.len() && #[trigger] ids@[a].0 == e.0;
                assert(e0.cleared_by_reconcile(ids@[a].0 as int));
            }
        }
        assert forall|i: int| e0.cleared_by_reconcile(i) <==> has_id(ids@, i) by {
            if has_id(ids@, i) {
                let a = choose|a: int| 0 <= a < ids@.len() && #[trigger] ids@[a].0 == i;
                assert(e0.cleared_by_reconcile(ids@[a].0 as int));
            }
        }
    }
    ids
}

} // verus!
