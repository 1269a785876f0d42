//! The component store: entity directory, component columns, the collider
//! column read by the spatial index, and the lifecycle event queue.
use vstd::prelude::*;
use crate::collider::Collider2d;
use crate::column::Column;
use crate::entity::{DirectoryView, EntityDirectory, EntityId};
use crate::events::{after_events, EventQueue, EventSystem, Listener};
use crate::world::World;

verus! {

/// A component knows the entity it is attached to.
pub trait Component {
    spec fn owner(&self) -> EntityId;

    fn get_entity_id(&self) -> (r: EntityId)
        ensures
            r == self.owner(),
    ;
}

impl Component for Collider2d {
    open spec fn owner(&self) -> EntityId {
        self.spec_entity()
    }

    fn get_entity_id(&self) -> (r: EntityId) {
        self.get_entity()
    }
}

/// Lifecycle notifications pushed by the store.
#[derive(Clone, Copy, Debug, PartialEq, Eq, Structural)]
pub enum EcsEvent {
    EntityCreated(EntityId),
    EntityDestroyed(EntityId),
}

/// Whether `ev` is a destruction notice for id `i`.
pub open spec fn destroys(ev: EcsEvent, i: int) -> bool {
    match ev {
        EcsEvent::EntityDestroyed(e) => e.0 == i,
        EcsEvent::EntityCreated(_) => false,
    }
}

/// Whether `events` holds a destruction notice for id `i`.
pub open spec fn destroyed_in(events: Seq<EcsEvent>, i: int) -> bool {
    exists|k: int| 0 <= k < events.len() && destroys(#[trigger] events[k], i)
}

/// Whether id `i` occurs in `s`.
pub open spec fn has_id(s: Seq<EntityId>, i: int) -> bool {
    exists|j: int| 0 <= j < s.len() && #[trigger] s[j].0 == i
}

/// Ids in strictly increasing order.
pub open spec fn ids_increasing(s: Seq<EntityId>) -> bool {
    forall|a: int, b: int| 0 <= a < b < s.len() ==> s[a].0 < s[b].0
}

/// Entities, their components, and the pending lifecycle events.
///
/// Destruction is two-phase: `remove_entity` marks the id dead at once, and
/// `process_self_events` later clears the id's slots in every column.
pub struct Ecs<C> {
    entity_cache: EntityDirectory,
    world: World<C>,
    colliders: Column<Collider2d>,
    events: EventSystem<EcsEvent>,
}

impl<C> Ecs<C> {
    pub closed spec fn wf(&self) -> bool {
        self.entity_cache.wf()
    }

    pub closed spec fn directory(&self) -> DirectoryView {
        self.entity_cache@
    }

    pub open spec fn alive(&self, i: int) -> bool {
        i >= 0 && self.directory().alive.contains(i as nat)
    }

    pub closed spec fn has_kind(&self, kind: int) -> bool {
        self.world.has_kind(kind)
    }

    /// The `kind` component stored for id `i`, whether the id is alive or not.
    pub closed spec fn comp(&self, kind: int, i: int) -> Option<C> {
        self.world.comp(kind, i)
    }

    /// The collider stored for id `i`, whether the id is alive or not.
    pub closed spec fn collider(&self, i: int) -> Option<Collider2d> {
        self.colliders.at(i)
    }

    /// Lifecycle events not yet reconciled, oldest first.
    pub closed spec fn lifecycle(&self) -> Seq<EcsEvent> {
        self.events@
    }

    /// An id can be handed out: one waits for reuse, or room is left for a
    /// fresh one.
    pub open spec fn can_create(&self) -> bool {
        self.directory().free.len() > 0 || self.directory().issued + 2 * crate::entity::GROW_SIZE <= usize::MAX
    }

    /// Only the collider column differs between `self` and `other`, and only at `i`.
    pub open spec fn same_but_collider(&self, other: &Self, i: int) -> bool {
        &&& self.wf() == other.wf()
        &&& self.directory() == other.directory()
        &&& self.lifecycle() == other.lifecycle()
        &&& forall|k: int, j: int| #![trigger self.comp(k, j)] self.comp(k, j) == other.comp(k, j)
        &&& forall|k: int| #![trigger self.has_kind(k)] self.has_kind(k) == other.has_kind(k)
        &&& forall|j: int| #![trigger self.collider(j)] j != i ==> self.collider(j) == other.collider(j)
        &&& forall|k: int, j: int| #![trigger self.has_slot(k, j)] self.has_slot(k, j) == other.has_slot(k, j)
    }

    /// `post` is `pre` after `create_entity` handed out `id`.
    pub open spec fn created(pre: Self, post: Self, id: EntityId) -> bool {
        &&& post.wf()
        &&& id.id() == EntityDirectory::next_id(pre.directory())
        &&& !pre.alive(id.0 as int)
        &&& post.directory().alive == pre.directory().alive.insert(id.id())
        &&& pre.directory().free.len() > 0 ==> post.directory().free == pre.directory().free.drop_last()
            && post.directory().issued == pre.directory().issued
        &&& pre.directory().free.len() == 0 ==> post.directory().free == pre.directory().free
            && post.directory().issued == pre.directory().issued + 1
        &&& post.lifecycle() == pre.lifecycle().push(EcsEvent::EntityCreated(id))
        &&& forall|k: int, i: int| #![trigger post.comp(k, i)] post.comp(k, i) == if i == id.0 { None } else { pre.comp(k, i) }
        &&& forall|k: int| #![trigger post.has_kind(k)] post.has_kind(k) == pre.has_kind(k)
        &&& forall|i: int| #![trigger post.collider(i)] post.collider(i) == if i == id.0 { None } else { pre.collider(i) }
        &&& forall|k: int, i: int| #![trigger post.has_slot(k, i)] post.has_slot(k, i) == pre.has_slot(k, i)
    }

    /// `post` is `pre` after `remove_entity(id)`.
    pub open spec fn destroyed(pre: Self, post: Self, id: EntityId) -> bool {
        &&& post.wf()
        &&& post.directory().issued == pre.directory().issued
        &&& post.directory().alive == pre.directory().alive.remove(id.id())
        &&& post.directory().free == pre.directory().free.push(id.id())
        &&& post.lifecycle() == pre.lifecycle().push(EcsEvent::EntityDestroyed(id))
        &&& forall|k: int, i: int| #![trigger post.comp(k, i)] post.comp(k, i) == pre.comp(k, i)
        &&& forall|k: int| #![trigger post.has_kind(k)] post.has_kind(k) == pre.has_kind(k)
        &&& forall|i: int| #![trigger post.collider(i)] post.collider(i) == pre.collider(i)

        &&& forall|k: int, i: int| #![trigger post.has_slot(k, i)] post.has_slot(k, i) == pre.has_slot(k, i)
    }

    /// `post` is `pre` after reconciliation: the lifecycle queue drained and
    /// every id it destroyed cleared from every column.
    pub open spec fn reconciled(pre: Self, post: Self) -> bool {
        &&& post.wf() == pre.wf()
        &&& post.directory() == pre.directory()
        &&& post.lifecycle() == Seq::<EcsEvent>::empty()
        &&& forall|k: int| #![trigger post.has_kind(k)] post.has_kind(k) == pre.has_kind(k)
        &&& forall|k: int, i: int| #![trigger post.comp(k, i)] post.comp(k, i) == if pre.cleared_by_reconcile(i) {
            None
        } else {
            pre.comp(k, i)
        }
        &&& forall|i: int| #![trigger post.collider(i)] post.collider(i) == if pre.cleared_by_reconcile(i) {
            None
        } else {
            pre.collider(i)
        }
        &&& forall|k: int, i: int| #![trigger post.has_slot(k, i)] post.has_slot(k, i) == pre.has_slot(k, i)
    }

    /// Reconciliation clears id `i`: a destruction notice for it is pending.
    pub open spec fn cleared_by_reconcile(&self, i: int) -> bool {
        destroyed_in(self.lifecycle(), i)
    }

    /// Whether the `kind` column reaches id `i`.
    pub closed spec fn has_slot(&self, kind: int, i: int) -> bool {
        self.world.has_slot(kind, i)
    }

    /// Every id waiting for reuse was issued, is dead, and is queued once.
    pub proof fn lemma_free_list(&self)
        requires
            self.wf(),
        ensures
            EntityDirectory::free_list_ok(self.directory()),
    {
        self.entity_cache.lemma_free_list();
    }

    /// A component is stored only in a slot its column reaches, and a slot
    /// exists only in a column that exists; so a kind without a column holds
    /// nothing.
    pub proof fn lemma_slots(&self, kind: int, i: int)
        ensures
            self.comp(kind, i) is Some ==> self.has_slot(kind, i),
            self.has_slot(kind, i) ==> self.has_kind(kind),
            !self.has_kind(kind) ==> self.comp(kind, i) is None,
    {
        self.world.lemma_slots(kind, i);
    }

    pub fn new() -> (r: Self)
        ensures
            r.wf(),
            r.directory().issued == 0,
            r.directory().alive == Set::<nat>::empty(),
            r.directory().free == Seq::<nat>::empty(),
            forall|k: int| !r.has_kind(k),
            forall|k: int, i: int| !r.has_slot(k, i),
            forall|k: int, i: int| r.comp(k, i) is None,
            forall|i: int| r.collider(i) is None,
            r.lifecycle() == Seq::<EcsEvent>::empty(),
    {
        let r = Ecs {
            entity_cache: EntityDirectory::new(),
            world: World::new(),
            colliders: Column::new(),
            events: EventSystem::new(),
        };
        assert forall|k: int, i: int| r.comp(k, i) is None by {
            r.world.lemma_slots(k, i);
        }
        r
    }

    /// Allocates an id (reusing the most recently freed one first), marks it
    /// alive and queues a creation notice.
    pub fn create_entity(&mut self) -> (r: EntityId)
        requires
            old(self).wf(),
            old(self).can_create(),
        ensures
            Self::created(*old(self), *final(self), r),
    {
        let id = self.entity_cache.create_entity_handle();
        // A reused id may still hold what its previous entity left behind.
        self.world.remove_entity(id);
        self.colliders.reset(id.0);
        self.events.push_event(EcsEvent::EntityCreated(id));
        id
    }

    /// Marks a live entity dead, frees its id and queues a destruction
    /// notice. Its components stay until `process_self_events`.
    pub fn remove_entity(&mut self, entity_id: EntityId)
        requires
            old(self).wf(),
            old(self).alive(entity_id.0 as int),
        ensures
            Self::destroyed(*old(self), *final(self), entity_id),
    {
        self.events.push_event(EcsEvent::EntityDestroyed(entity_id));
        self.entity_cache.remove_entity(entity_id);
    }

    /// Whether `create_entity` may be called.
    pub fn has_room(&self) -> (r: bool)
        ensures
            r == self.can_create(),
    {
        self.entity_cache.has_free() || self.entity_cache.issued() <= usize::MAX - 2 * crate::entity::GROW_SIZE
    }

    /// The lifecycle events not yet reconciled, oldest first.
    pub fn pending_events(&self) -> (r: Vec<EcsEvent>)
        ensures
            r@ == self.lifecycle(),
    {
        self.events.get_events()
    }

    pub fn is_alive(&self, entity_id: EntityId) -> (r: bool)
        ensures
            r == self.alive(entity_id.0 as int),
    {
        self.entity_cache.is_entity_alive(entity_id)
    }

    /// Stores the value made by `creator` as the `kind` component of
    /// `entity`, creating the column if absent and overwriting any old value.
    pub fn add_component<F: FnOnce() -> C>(&mut self, entity: EntityId, kind: usize, creator: F)
        requires
            entity.0 < usize::MAX,
            creator.requires(()),
        ensures
            final(self).wf() == old(self).wf(),
            final(self).directory() == old(self).directory(),
            final(self).lifecycle() == old(self).lifecycle(),
            final(self).has_kind(kind as int),
            exists|v: C| creator.ensures((), v) && final(self).comp(kind as int, entity.0 as int) == Some(v),
            forall|k: int, i: int| #![trigger final(self).comp(k, i)] (k != kind || i != entity.0) ==> final(self).comp(k, i) == old(self).comp(k, i),
            forall|k: int| #![trigger final(self).has_kind(k)] k != kind ==> final(self).has_kind(k) == old(self).has_kind(k),
            forall|i: int| #![trigger final(self).collider(i)] final(self).collider(i) == old(self).collider(i),
            forall|k: int, i: int| #![trigger final(self).has_slot(k, i)] final(self).has_slot(k, i)
                == (old(self).has_slot(k, i) || (k == kind && 0 <= i <= entity.0)),
    {
        let value = creator();
        self.world.add_component(entity, kind, value);
    }

    /// The `kind` component of a live entity; `None` for a dead one.
    pub fn get_component(&self, entity_id: EntityId, kind: usize) -> (r: Option<&C>)
        ensures
            r == (if self.alive(entity_id.0 as int) {
                match self.comp(kind as int, entity_id.0 as int) {
                    Some(v) => Some(&v),
                    None => None::<&C>,
                }
            } else {
                None::<&C>
            }),
            !self.has_kind(kind as int) ==> r is None,
    {
        proof {
            self.lemma_slots(kind as int, entity_id.0 as int);
        }
        if !self.entity_cache.is_entity_alive(entity_id) {
            return None;
        }
        self.world.get_component(entity_id, kind)
    }

    /// Exclusive access to the `kind` component of a live entity.
    pub fn get_component_mut(&mut self, entity_id: EntityId, kind: usize) -> (r: Option<&mut C>)
        ensures
            final(self).wf() == old(self).wf(),
            final(self).directory() == old(self).directory(),
            final(self).lifecycle() == old(self).lifecycle(),
            forall|k: int, i: int| #![trigger final(self).comp(k, i)] (k != kind || i != entity_id.0) ==> final(self).comp(k, i) == old(self).comp(k, i),
            forall|k: int| #![trigger final(self).has_kind(k)] final(self).has_kind(k) == old(self).has_kind(k),
            forall|i: int| #![trigger final(self).collider(i)] final(self).collider(i) == old(self).collider(i),
            forall|k: int, i: int| #![trigger final(self).has_slot(k, i)] final(self).has_slot(k, i) == old(self).has_slot(k, i),
            !(old(self).alive(entity_id.0 as int) && old(self).comp(kind as int, entity_id.0 as int) is Some) ==> r is None
                && final(self).comp(kind as int, entity_id.0 as int) == old(self).comp(kind as int, entity_id.0 as int),
            old(self).alive(entity_id.0 as int) && old(self).comp(kind as int, entity_id.0 as int) is Some ==> r is Some
                && *r->0 == old(self).comp(kind as int, entity_id.0 as int)->0
                && final(self).comp(kind as int, entity_id.0 as int) == Some(*final(r->0)),
    {
        if !self.entity_cache.is_entity_alive(entity_id) {
            return None;
        }
        self.world.get_component_mut(entity_id, kind)
    }

    pub fn is_componet_exist(&self, kind: usize) -> (r: bool)
        ensures
            r == self.has_kind(kind as int),
    {
        self.world.is_component_exist(kind)
    }

    /// Stores `collider` for `entity`, overwriting any old one.
    pub fn add_collider(&mut self, entity: EntityId, collider: Collider2d)
        requires
            entity.0 < usize::MAX,
        ensures
            final(self).collider(entity.0 as int) == Some(collider),
            final(self).same_but_collider(old(self), entity.0 as int),
    {
        self.colliders.set(entity.0, collider);
    }

    /// The collider of a live entity.
    pub fn get_collider(&self, entity_id: EntityId) -> (r: Option<&Collider2d>)
        ensures
            r == (if self.alive(entity_id.0 as int) {
                match self.collider(entity_id.0 as int) {
                    Some(v) => Some(&v),
                    None => None::<&Collider2d>,
                }
            } else {
                None::<&Collider2d>
            }),
    {
        if !self.entity_cache.is_entity_alive(entity_id) {
            return None;
        }
        self.colliders.get(entity_id.0)
    }

    /// Exclusive access to the collider of a live entity.
    pub fn get_collider_mut(&mut self, entity_id: EntityId) -> (r: Option<&mut Collider2d>)
        ensures
            final(self).same_but_collider(old(self), entity_id.0 as int),
            !(old(self).alive(entity_id.0 as int) && old(self).collider(entity_id.0 as int) is Some) ==> r is None
                && final(self).collider(entity_id.0 as int) == old(self).collider(entity_id.0 as int),
            old(self).alive(entity_id.0 as int) && old(self).collider(entity_id.0 as int) is Some ==> r is Some
                && *r->0 == old(self).collider(entity_id.0 as int)->0
                && final(self).collider(entity_id.0 as int) == Some(*final(r->0)),
    {
        if !self.entity_cache.is_entity_alive(entity_id) {
            return None;
        }
        self.colliders.get_mut(entity_id.0)
    }
}

impl<C> Ecs<C> {
    /// Live ids holding a `kind` component.
    pub open spec fn holds1(&self, k1: int, i: int) -> bool {
        self.alive(i) && self.comp(k1, i) is Some
    }

    /// The ids that a visit of the `kind` column reaches: every live entity
    /// holding a `kind` component, in increasing id order. None if the
    /// column was never created.
    pub fn visit_all(&self, kind: usize) -> (r: Vec<EntityId>)
        ensures
            ids_increasing(r@),
            forall|j: int| 0 <= j < r@.len() ==> self.holds1(kind as int, #[trigger] r@[j].0 as int),
            forall|i: int| self.holds1(kind as int, i) ==> has_id(r@, i),
            !self.has_kind(kind as int) ==> r@.len() == 0,
    {
        let mut r: Vec<EntityId> = Vec::new();
        let col = match self.world.borrow_component_vec(kind) {
            Some(col) => col,
            None => {
                return r;
            },
        };
        let alive_check = self.entity_cache.get_alive_check();
        let n = col.len();
        let mut i: usize = 0;
        while i < n
            invariant
                n == col@.len(),
                self.world.column(kind as int) == Some(col@),
                alive_check@ == self.directory().alive,
                i <= n,
                ids_increasing(r@),
                forall|j: int| 0 <= j < r@.len() ==> #[trigger] r@[j].0 < i,
                forall|j: int| 0 <= j < r@.len() ==> self.holds1(kind as int, #[trigger] r@[j].0 as int),
                forall|x: int| 0 <= x < i && self.holds1(kind as int, x) ==> has_id(r@, x),
            decreases n - i,
        {
            let ghost r_before = r@;
            if alive_check.get(i) && col.get(i).is_some() {
                let ghost r0 = r@;
                r.push(EntityId(i));
                proof {
                    assert(r@[r@.len() - 1] == EntityId(i));
                    assert forall|x: int| has_id(r0, x) implies has_id(r@, x) by {
                        let j = choose|j: int| 0 <= j < r0.len() && #[trigger] r0[j].0 == x;
                        assert(r@[j] == r0[j]);
                    }
                    assert(has_id(r@, i as int)) by {
                        assert(r@[r@.len() - 1].0 == i);
                    }
                }
            }
            proof {
                assert forall|x: int| 0 <= x < i + 1 && self.holds1(kind as int, x) implies has_id(r@, x) by {
                    if x < i {
                        assert(has_id(r_before, x));
                        let j = choose|j: int| 0 <= j < r_before.len() && #[trigger] r_before[j].0 == x;
                        assert(r@[j] == r_before[j]);
                    } else {
                        assert(col.at(x) is Some);
                    }
                }
            }
            i += 1;
        }
        proof {
            assert forall|x: int| self.holds1(kind as int, x) implies has_id(r@, x) by {
                assert(x < n);
            }
        }
        r
    }

    /// The ids that a joint visit of two columns reaches: every live entity
    /// holding both components, in increasing id order. Both columns must exist.
    pub fn visit_all2(&self, k1: usize, k2: usize) -> (r: Vec<EntityId>)
        requires
            k1 != k2,
            self.has_kind(k1 as int),
            self.has_kind(k2 as int),
        ensures
            ids_increasing(r@),
            forall|j: int| 0 <= j < r@.len() ==> self.holds1(k1 as int, #[trigger] r@[j].0 as int)
                && self.holds1(k2 as int, r@[j].0 as int),
            forall|i: int| self.holds1(k1 as int, i) && self.holds1(k2 as int, i) ==> has_id(r@, i),
    {
        let mut r: Vec<EntityId> = Vec::new();
        let c1 = self.world.borrow_component_vec(k1).unwrap();
        let c2 = self.world.borrow_component_vec(k2).unwrap();
        let alive_check = self.entity_cache.get_alive_check();
        let n = if c1.len() < c2.len() { c1.len() } else { c2.len() };
        let mut i: usize = 0;
        while i < n
            invariant
                n <= c1@.len(),
                n <= c2@.len(),
                n == c1@.len() || n == c2@.len(),
                self.world.column(k1 as int) == Some(c1@),
                self.world.column(k2 as int) == Some(c2@),
                alive_check@ == self.directory().alive,
                i <= n,
                ids_increasing(r@),
                forall|j: int| 0 <= j < r@.len() ==> #[trigger] r@[j].0 < i,
                forall|j: int| 0 <= j < r@.len() ==> self.holds1(k1 as int, #[trigger] r@[j].0 as int)
                    && self.holds1(k2 as int, r@[j].0 as int),
                forall|x: int| 0 <= x < i && self.holds1(k1 as int, x) && self.holds1(k2 as int, x)
                    ==> has_id(r@, x),
            decreases n - i,
        {
            let ghost r_before = r@;
            if alive_check.get(i) && c1.get(i).is_some() && c2.get(i).is_some() {
                let ghost r0 = r@;
                r.push(EntityId(i));
                proof {
                    assert(r@[r@.len() - 1] == EntityId(i));
                    assert forall|x: int| has_id(r0, x) implies has_id(r@, x) by {
                        let j = choose|j: int| 0 <= j < r0.len() && #[trigger] r0[j].0 == x;
                        assert(r@[j] == r0[j]);
                    }
                    assert(has_id(r@, i as int)) by {
                        assert(r@[r@.len() - 1].0 == i);
                    }
                }
            }
            proof {
                assert forall|x: int| 0 <= x < i + 1 && self.holds1(k1 as int, x) && self.holds1(k2 as int, x) implies has_id(r@, x) by {
                    if x < i {
                        assert(has_id(r_before, x));
                        let j = choose|j: int| 0 <= j < r_before.len() && #[trigger] r_before[j].0 == x;
                        assert(r@[j] == r_before[j]);
                    } else {
                        assert(c1.at(x) is Some);
                        assert(c2.at(x) is Some);
                    }
                }
            }
            i += 1;
        }
        proof {
            assert forall|x: int| self.holds1(k1 as int, x) && self.holds1(k2 as int, x)
                implies has_id(r@, x) by {
                assert(x < n);
            }
        }
        r
    }

    /// The ids that a joint visit of three columns reaches: every live entity
    /// holding all three components, in increasing id order. All three
    /// columns must exist.
    pub fn visit_all3(&self, k1: usize, k2: usize, k3: usize) -> (r: Vec<EntityId>)
        requires
            k1 != k2,
            k1 != k3,
            k2 != k3,
            self.has_kind(k1 as int),
            self.has_kind(k2 as int),
            self.has_kind(k3 as int),
        ensures
            ids_increasing(r@),
            forall|j: int| 0 <= j < r@.len() ==> self.holds1(k1 as int, #[trigger] r@[j].0 as int)
                && self.holds1(k2 as int, r@[j].0 as int) && self.holds1(k3 as int, r@[j].0 as int),
            forall|i: int| self.holds1(k1 as int, i) && self.holds1(k2 as int, i) && self.holds1(k3 as int, i)
                ==> has_id(r@, i),
    {
        let two = self.visit_all2(k1, k2);
        let mut r: Vec<EntityId> = Vec::new();
        let mut j: usize = 0;
        while j < two.len()
            invariant
                j <= two@.len(),
                ids_increasing(two@),
                forall|a: int| 0 <= a < two@.len() ==> self.holds1(k1 as int, #[trigger] two@[a].0 as int)
                    && self.holds1(k2 as int, two@[a].0 as int),
                forall|i: int| self.holds1(k1 as int, i) && self.holds1(k2 as int, i) ==> has_id(two@, i),
                ids_increasing(r@),
                forall|a: int| 0 <= a < r@.len() ==> exists|b: int| 0 <= b < j && #[trigger] r@[a] == two@[b],
                forall|a: int| 0 <= a < r@.len() ==> self.holds1(k1 as int, #[trigger] r@[a].0 as int)
                    && self.holds1(k2 as int, r@[a].0 as int) && self.holds1(k3 as int, r@[a].0 as int),
                forall|b: int| 0 <= b < j && self.holds1(k3 as int, #[trigger] two@[b].0 as int) ==> has_id(r@, two@[b].0 as int),
            decreases two@.len() - j,
        {
            let id = two[j];
            let ghost r_before = r@;
            if self.world.get_component(id, k3).is_some() {
                proof {
                    assert forall|a: int| 0 <= a < r@.len() implies r@[a].0 < id.0 by {
                        let b = choose|b: int| 0 <= b < j && r@[a] == two@[b];
                    }
                }
                r.push(id);
                proof {
                    assert(r@[r@.len() - 1] == id);
                    assert forall|a: int| 0 <= a < r@.len() implies exists|b: int| 0 <= b < j + 1 && #[trigger] r@[a] == two@[b] by {
                        if a == r@.len() - 1 {
                            assert(r@[a] == two@[j as int]);
                        } else {
                            let b = choose|b: int| 0 <= b < j && r@[a] == two@[b];
                        }
                    }
                }
            }
            proof {
                assert forall|b: int| 0 <= b < j + 1 && self.holds1(k3 as int, #[trigger] two@[b].0 as int)
                    implies has_id(r@, two@[b].0 as int) by {
                    if b < j {
                        let x = two@[b].0 as int;
                        assert(has_id(r_before, x));
                        let q = choose|q: int| 0 <= q < r_before.len() && #[trigger] r_before[q].0 == x;
                        assert(r@[q] == r_before[q]);
                    } else {
                        assert(r@[r@.len() - 1].0 == id.0);
                    }
                }
            }
            j += 1;
        }
        proof {
            assert forall|i: int| self.holds1(k1 as int, i) && self.holds1(k2 as int, i) && self.holds1(k3 as int, i)
                implies has_id(r@, i) by {
                assert(has_id(two@, i));
                let b = choose|b: int| 0 <= b < two@.len() && #[trigger] two@[b].0 == i;
                assert(self.holds1(k3 as int, two@[b].0 as int));
            }
        }
        r
    }

    /// Reconciliation: drains the lifecycle queue and empties, for every id
    /// it held a destruction notice for, that id's slot in every column.
    /// Returns those ids.
    pub fn process_self_events(&mut self) -> (r: Vec<EntityId>)
        ensures
            Self::reconciled(*old(self), *final(self)),
            forall|j: int| 0 <= j < r@.len() ==> old(self).cleared_by_reconcile(#[trigger] r@[j].0 as int),
            forall|i: int| old(self).cleared_by_reconcile(i) ==> has_id(r@, i),
    {
        let events = self.events.drain();
        let ghost evs = events@;
        let mut destroyed: Vec<EntityId> = Vec::new();
        let n = events.len();
        let mut k: usize = 0;
        while k < n
            invariant
                n == evs.len(),
                evs == events@,
                evs == old(self).lifecycle(),
                k <= n,
                self.lifecycle() == Seq::<EcsEvent>::empty(),
                self.wf() == old(self).wf(),
                self.directory() == old(self).directory(),
                forall|kd: int| #![trigger self.has_kind(kd)] self.has_kind(kd) == old(self).has_kind(kd),
                forall|kd: int, i: int| #![trigger self.comp(kd, i)] self.comp(kd, i) == if destroyed_in(evs.take(k as int), i) {
                    None
                } else {
                    old(self).comp(kd, i)
                },
                forall|i: int| #![trigger self.collider(i)] self.collider(i) == if destroyed_in(evs.take(k as int), i) {
                    None
                } else {
                    old(self).collider(i)
                },
                forall|j: int| 0 <= j < destroyed@.len() ==> destroyed_in(evs.take(k as int), #[trigger] destroyed@[j].0 as int),
                forall|i: int| destroyed_in(evs.take(k as int), i) ==> has_id(destroyed@, i),
                forall|kd: int, i: int| #![trigger self.has_slot(kd, i)] self.has_slot(kd, i) == old(self).has_slot(kd, i),
            decreases n - k,
        {
            let ghost before = *self;
            let ghost before_d = destroyed@;
            let ev = events[k];
            assert forall|i: int| #[trigger] destroyed_in(evs.take(k + 1), i) <==> (destroyed_in(evs.take(k as int), i)
                || destroys(evs[k as int], i)) by {
                if destroyed_in(evs.take(k + 1), i) {
                    let q = choose|q: int| 0 <= q < k + 1 && destroys(#[trigger] evs.take(k + 1)[q], i);
                    if q < k {
                        assert(evs.take(k as int)[q] == evs.take(k + 1)[q]);
                    }
                }
                if destroyed_in(evs.take(k as int), i) {
                    let q = choose|q: int| 0 <= q < k && destroys(#[trigger] evs.take(k as int)[q], i);
                    assert(evs.take(k + 1)[q] == evs.take(k as int)[q]);
                }
                if destroys(evs[k as int], i) {
                    assert(evs.take(k + 1)[k as int] == evs[k as int]);
                }
            }
            match ev {
                EcsEvent::EntityDestroyed(id) => {
                    self.world.remove_entity(id);
                    self.colliders.reset(id.0);
                    destroyed.push(id);
                    proof {
                        assert forall|kd: int, i: int| #![trigger self.has_slot(kd, i)] self.has_slot(kd, i) == old(self).has_slot(kd, i) by {
                            assert(before.has_slot(kd, i) == old(self).has_slot(kd, i));
                        }
                        assert forall|i: int| #[trigger] destroyed_in(evs.take(k + 1), i) implies has_id(destroyed@, i) by {
                            if i == id.0 {
                                assert(destroyed@[destroyed@.len() - 1] == id);
                            } else {
                                assert(has_id(before_d, i));
                                let q = choose|q: int| 0 <= q < before_d.len() && #[trigger] before_d[q].0 == i;
                                assert(destroyed@[q] == before_d[q]);
                            }
                        }
                        assert forall|kd: int, i: int| #![trigger self.comp(kd, i)] self.comp(kd, i) == if destroyed_in(evs.take(k + 1), i) {
                            None
                        } else {
                            old(self).comp(kd, i)
                        } by {
                            assert(before.comp(kd, i) == if destroyed_in(evs.take(k as int), i) { None } else { old(self).comp(kd, i) });
                        }
                        assert forall|i: int| #![trigger self.collider(i)] self.collider(i) == if destroyed_in(evs.take(k + 1), i) {
                            None
                        } else {
                            old(self).collider(i)
                        } by {
                            assert(before.collider(i) == if destroyed_in(evs.take(k as int), i) { None } else { old(self).collider(i) });
                        }
                    }
                },
                EcsEvent::EntityCreated(_) => {},
            }
            assert forall|kd: int| #![trigger self.has_kind(kd)] self.has_kind(kd) == old(self).has_kind(kd) by {
                assert(before.has_kind(kd) == old(self).has_kind(kd));
                assert(self.world.has_kind(kd) == before.world.has_kind(kd));
            }
            k += 1;
        }
        proof {
            assert(evs.take(n as int) =~= evs);
        }
        destroyed
    }

    /// Delivers, to the `kind` component of every live entity holding one,
    /// the events queued for that entity in `queue`, in push order.
    pub fn process_events<E: Copy>(&mut self, queue: &EventQueue<E>, kind: usize)
        where
            C: Listener<E>,
        ensures
            final(self).wf() == old(self).wf(),
            final(self).directory() == old(self).directory(),
            final(self).lifecycle() == old(self).lifecycle(),
            forall|k: int| #![trigger final(self).has_kind(k)] final(self).has_kind(k) == old(self).has_kind(k),
            forall|i: int| #![trigger final(self).collider(i)] final(self).collider(i) == old(self).collider(i),
            forall|k: int, i: int| #![trigger final(self).has_slot(k, i)] final(self).has_slot(k, i) == old(self).has_slot(k, i),
            forall|k: int, i: int| #![trigger final(self).comp(k, i)] k != kind ==> final(self).comp(k, i) == old(self).comp(k, i),
            forall|i: int| #![trigger final(self).comp(kind as int, i)] final(self).comp(kind as int, i) == if old(self).holds1(kind as int, i) {
                Some(after_events(old(self).comp(kind as int, i)->0, queue.queue(i)))
            } else {
                old(self).comp(kind as int, i)
            },
    {
        let ids = self.visit_all(kind);
        let mut j: usize = 0;
        while j < ids.len()
            invariant
                j <= ids@.len(),
                ids_increasing(ids@),
                forall|a: int| 0 <= a < ids@.len() ==> old(self).holds1(kind as int, #[trigger] ids@[a].0 as int),
                forall|i: int| old(self).holds1(kind as int, i) ==> has_id(ids@, i),
                self.wf() == old(self).wf(),
                self.directory() == old(self).directory(),
                self.lifecycle() == old(self).lifecycle(),
                forall|k: int| #![trigger self.has_kind(k)] self.has_kind(k) == old(self).has_kind(k),
                forall|i: int| #![trigger self.collider(i)] self.collider(i) == old(self).collider(i),
                forall|k: int, i: int| #![trigger self.has_slot(k, i)] self.has_slot(k, i) == old(self).has_slot(k, i),
                forall|k: int, i: int| #![trigger self.comp(k, i)] k != kind ==> self.comp(k, i) == old(self).comp(k, i),
                forall|i: int| #![trigger self.comp(kind as int, i)] self.comp(kind as int, i) == if old(self).holds1(kind as int, i)
                    && exists|a: int| 0 <= a < j && #[trigger] ids@[a].0 == i {
                    Some(after_events(old(self).comp(kind as int, i)->0, queue.queue(i)))
                } else {
                    old(self).comp(kind as int, i)
                },
            decreases ids@.len() - j,
        {
            let id = ids[j];
            let ghost before = *self;
            proof {
                assert(old(self).holds1(kind as int, id.0 as int));
                assert(!exists|a: int| 0 <= a < j && #[trigger] ids@[a].0 == id.0);
                assert(before.comp(kind as int, id.0 as int) == old(self).comp(kind as int, id.0 as int));
            }
            match self.get_component_mut(id, kind) {
                Some(c) => {
                    queue.dispatch(id, c);
                },
                None => {},
            }
            proof {
                assert forall|i: int| #![trigger self.comp(kind as int, i)] self.comp(kind as int, i) == if old(self).holds1(kind as int, i)
                    && exists|a: int| 0 <= a < j + 1 && #[trigger] ids@[a].0 == i {
                    Some(after_events(old(self).comp(kind as int, i)->0, queue.queue(i)))
                } else {
                    old(self).comp(kind as int, i)
                } by {
                    if i != id.0 {
                        assert(self.comp(kind as int, i) == before.comp(kind as int, i));
                        if exists|a: int| 0 <= a < j + 1 && #[trigger] ids@[a].0 == i {
                            let a = choose|a: int| 0 <= a < j + 1 && #[trigger] ids@[a].0 == i;
                            assert(a < j);
                        }
                    } else {
                        assert(ids@[j as int].0 == i);
                    }
                }
            }
            j += 1;
        }
        proof {
            assert forall|i: int| #![trigger self.comp(kind as int, i)] self.comp(kind as int, i) == if old(self).holds1(kind as int, i) {
                Some(after_events(old(self).comp(kind as int, i)->0, queue.queue(i)))
            } else {
                old(self).comp(kind as int, i)
            } by {
                if old(self).holds1(kind as int, i) {
                    assert(has_id(ids@, i));
                    let a = choose|a: int| 0 <= a < ids@.len() && #[trigger] ids@[a].0 == i;
                }
            }
        }
    }
}

impl<C> Ecs<C> {
    /// Hands the `kind` slot of a live `entity` to `f` and stores what `f`
    /// returns. Nothing happens for a dead entity, a missing column, or a
    /// slot past the column's end.
    pub fn visit<F: FnOnce(Option<C>) -> Option<C>>(&mut self, entity: EntityId, kind: usize, f: F)
        requires
            old(self).alive(entity.0 as int) && old(self).has_slot(kind as int, entity.0 as int)
                ==> f.requires((old(self).comp(kind as int, entity.0 as int),)),
        ensures
            final(self).wf() == old(self).wf(),
            final(self).directory() == old(self).directory(),
            final(self).lifecycle() == old(self).lifecycle(),
            forall|k: int| #![trigger final(self).has_kind(k)] final(self).has_kind(k) == old(self).has_kind(k),
            forall|i: int| #![trigger final(self).collider(i)] final(self).collider(i) == old(self).collider(i),
            forall|k: int, i: int| #![trigger final(self).has_slot(k, i)] final(self).has_slot(k, i) == old(self).has_slot(k, i),
            forall|k: int, i: int| #![trigger final(self).comp(k, i)] (k != kind || i != entity.0) ==> final(self).comp(k, i) == old(self).comp(k, i),
            !(old(self).alive(entity.0 as int) && old(self).has_slot(kind as int, entity.0 as int))
                ==> final(self).comp(kind as int, entity.0 as int) == old(self).comp(kind as int, entity.0 as int),
            old(self).alive(entity.0 as int) && old(self).has_slot(kind as int, entity.0 as int)
                ==> f.ensures((old(self).comp(kind as int, entity.0 as int),), final(self).comp(kind as int, entity.0 as int)),
    {
        if !self.entity_cache.is_entity_alive(entity) {
            return;
        }
        let in_column = match self.world.borrow_component_vec(kind) {
            Some(col) => entity.0 < col.len(),
            None => false,
        };
        if !in_column {
            return;
        }
        let a = self.world.replace_component(entity, kind, None);
        let a2 = f(a);
        self.world.replace_component(entity, kind, a2);
    }

    /// Hands the `k1` and `k2` slots of a live `entity` to `f` together and
    /// stores what `f` returns. Nothing happens for a dead entity or when a
    /// slot lies past its column's end. Both columns must exist.
    pub fn visit2<F: FnOnce(Option<C>, Option<C>) -> (Option<C>, Option<C>)>(&mut self, entity: EntityId, k1: usize, k2: usize, f: F)
        requires
            k1 != k2,
            old(self).has_kind(k1 as int),
            old(self).has_kind(k2 as int),
            old(self).alive(entity.0 as int) && old(self).has_slot(k1 as int, entity.0 as int) && old(self).has_slot(k2 as int, entity.0 as int)
                ==> f.requires((old(self).comp(k1 as int, entity.0 as int), old(self).comp(k2 as int, entity.0 as int))),
        ensures
            final(self).wf() == old(self).wf(),
            final(self).directory() == old(self).directory(),
            final(self).lifecycle() == old(self).lifecycle(),
            forall|k: int| #![trigger final(self).has_kind(k)] final(self).has_kind(k) == old(self).has_kind(k),
            forall|i: int| #![trigger final(self).collider(i)] final(self).collider(i) == old(self).collider(i),
            forall|k: int, i: int| #![trigger final(self).has_slot(k, i)] final(self).has_slot(k, i) == old(self).has_slot(k, i),
            forall|k: int, i: int| #![trigger final(self).comp(k, i)] ((k != k1 && k != k2) || i != entity.0) ==> final(self).comp(k, i) == old(self).comp(k, i),
            !(old(self).alive(entity.0 as int) && old(self).has_slot(k1 as int, entity.0 as int) && old(self).has_slot(k2 as int, entity.0 as int))
                ==> final(self).comp(k1 as int, entity.0 as int) == old(self).comp(k1 as int, entity.0 as int)
                && final(self).comp(k2 as int, entity.0 as int) == old(self).comp(k2 as int, entity.0 as int),
            old(self).alive(entity.0 as int) && old(self).has_slot(k1 as int, entity.0 as int) && old(self).has_slot(k2 as int, entity.0 as int)
                ==> f.ensures(
                    (old(self).comp(k1 as int, entity.0 as int), old(self).comp(k2 as int, entity.0 as int)),
                    (final(self).comp(k1 as int, entity.0 as int), final(self).comp(k2 as int, entity.0 as int)),
                ),
    {
        if !self.entity_cache.is_entity_alive(entity) {
            return;
        }
        let in1 = match self.world.borrow_component_vec(k1) {
            Some(col) => entity.0 < col.len(),
            None => false,
        };
        let in2 = match self.world.borrow_component_vec(k2) {
            Some(col) => entity.0 < col.len(),
            None => false,
        };
        if !(in1 && in2) {
            return;
        }
        let a = self.world.replace_component(entity, k1, None);
        let b = self.world.replace_component(entity, k2, None);
        let (a2, b2) = f(a, b);
        self.world.replace_component(entity, k1, a2);
        self.world.replace_component(entity, k2, b2);
    }
}

} // verus!
