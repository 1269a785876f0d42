//! The collider component: an entity's box, its place in the spatial index,
//! and the entities it never collides with.
use vstd::prelude::*;
use crate::bounds::Bounds;
use crate::entity::EntityId;
use crate::quad_tree::Handle;

verus! {

#[derive(Clone, Debug)]
pub struct Collider2d {
    entity: EntityId,
    bounds: Bounds,
    area_handle: Option<Handle>,
    reached_border: bool,
    collision_ignore: Option<Vec<EntityId>>,
}

impl Collider2d {
    pub closed spec fn spec_entity(&self) -> EntityId {
        self.entity
    }

    pub closed spec fn spec_bounds(&self) -> Bounds {
        self.bounds
    }

    pub closed spec fn spec_area_handle(&self) -> Option<Handle> {
        self.area_handle
    }

    pub closed spec fn spec_reached_border(&self) -> bool {
        self.reached_border
    }

    /// The ignore-list; empty when none was given.
    pub closed spec fn ignores(&self) -> Seq<EntityId> {
        match self.collision_ignore {
            Some(v) => v@,
            None => Seq::empty(),
        }
    }

    pub fn new(entity: EntityId, bounds: Bounds) -> (r: Self)
        ensures
            r.spec_entity() == entity,
            r.spec_bounds() == bounds,
            r.spec_area_handle() is None,
            !r.spec_reached_border(),
            r.ignores() == Seq::<EntityId>::empty(),
    {
        Self { entity, bounds, area_handle: None, reached_border: false, collision_ignore: None }
    }

    /// A collider that never collides with the entities in `ignores`.
    pub fn with_ignore(entity: EntityId, bounds: Bounds, ignores: Vec<EntityId>) -> (r: Self)
        ensures
            r.spec_entity() == entity,
            r.spec_bounds() == bounds,
            r.spec_area_handle() is None,
            !r.spec_reached_border(),
            r.ignores() == ignores@,
    {
        Self {
            entity,
            bounds,
            area_handle: None,
            reached_border: false,
            collision_ignore: Some(ignores),
        }
    }

    pub fn is_ignored_entity(&self, id: EntityId) -> (r: bool)
        ensures
            r == self.ignores().contains(id),
    {
        match &self.collision_ignore {
            Some(ignores) => {
                assert(self.ignores() == ignores@);
                let mut i: usize = 0;
                while i < ignores.len()
                    invariant
                        self.ignores() == ignores@,
                        i <= ignores@.len(),
                        forall|k: int| 0 <= k < i ==> ignores@[k] != id,
                    decreases ignores@.len() - i,
                {
                    if ignores[i] == id {
                        assert(self.ignores()[i as int] == id);
                        assert(self.ignores().contains(id));
                        return true;
                    }
                    i += 1;
                }
                false
            },
            None => false,
        }
    }

    /// Centers the box at `(x, y)`.
    pub fn set_position(&mut self, x: i64, y: i64)
        requires
            x - old(self).spec_bounds().spec_width() / 2 >= i64::MIN,
            y - old(self).spec_bounds().spec_height() / 2 >= i64::MIN,
        ensures
            final(self).spec_bounds()@ == crate::bounds::centered_rect(
                x as int,
                y as int,
                old(self).spec_bounds().spec_width(),
                old(self).spec_bounds().spec_height(),
            ),
            final(self).spec_bounds().spec_width() == old(self).spec_bounds().spec_width(),
            final(self).spec_bounds().spec_height() == old(self).spec_bounds().spec_height(),
            final(self).spec_entity() == old(self).spec_entity(),
            final(self).spec_area_handle() == old(self).spec_area_handle(),
            final(self).spec_reached_border() == old(self).spec_reached_border(),
            final(self).ignores() == old(self).ignores(),
    {
        self.bounds.set_center_position(x, y);
    }

    /// Replaces the box.
    pub fn set_bounds(&mut self, bounds: Bounds)
        ensures
            final(self).spec_bounds() == bounds,
            final(self).spec_entity() == old(self).spec_entity(),
            final(self).spec_area_handle() == old(self).spec_area_handle(),
            final(self).spec_reached_border() == old(self).spec_reached_border(),
            final(self).ignores() == old(self).ignores(),
    {
        self.bounds = bounds;
    }

    pub fn get_entity(&self) -> (r: EntityId)
        ensures
            r == self.spec_entity(),
    {
        self.entity
    }

    pub fn get_bounds(&self) -> (r: Bounds)
        ensures
            r == self.spec_bounds(),
    {
        self.bounds
    }

    pub fn is_reached_border(&self) -> (r: bool)
        ensures
            r == self.spec_reached_border(),
    {
        self.reached_border
    }

    pub fn set_reached_border(&mut self, reached: bool)
        ensures
            final(self).spec_reached_border() == reached,
            final(self).spec_entity() == old(self).spec_entity(),
            final(self).spec_bounds() == old(self).spec_bounds(),
            final(self).spec_area_handle() == old(self).spec_area_handle(),
            final(self).ignores() == old(self).ignores(),
    {
        self.reached_border = reached;
    }

    pub fn set_area_handle(&mut self, handle: Option<Handle>)
        ensures
            final(self).spec_area_handle() == handle,
            final(self).spec_entity() == old(self).spec_entity(),
            final(self).spec_bounds() == old(self).spec_bounds(),
            final(self).spec_reached_border() == old(self).spec_reached_border(),
            final(self).ignores() == old(self).ignores(),
    {
        self.area_handle = handle;
    }

    pub fn get_area_handle(&self) -> (r: Option<Handle>)
        ensures
            r == self.spec_area_handle(),
    {
        self.area_handle
    }
}

} // verus!
