//! A fixed-shape quad-tree over the world that assigns each collider to the
//! deepest region strictly containing it.
//!
//! Nodes sit in a flat array in breadth-first order: the children of node `i`
//! are `4i+1 ..= 4i+4` (bottom-left, top-left, top-right, bottom-right), and
//! the parent of node `i > 0` is `(i-1)/4`.
use vstd::prelude::*;
use crate::bounds::{overlaps, strictly_inside, within, Bounds, Rect};
use crate::collider::Collider2d;
use crate::ecs::Ecs;
use crate::entity::EntityId;

verus! {

/// Children per node.
pub const CHUNKS: usize = 4;

/// Number of levels, the root's included.
pub const MAX_DEPTH: usize = 3;

/// Nodes with children: the root and its four children.
pub const INTERNAL_COUNT: usize = 1 + CHUNKS;

/// All nodes: one root, four children, sixteen leaves.
pub const NODE_COUNT: usize = 1 + CHUNKS + CHUNKS * CHUNKS;

/// Index of a node in the tree's flat node array.
#[derive(Clone, Copy, Debug, PartialEq, Eq, Structural)]
pub struct Handle {
    index: usize,
}

impl Handle {
    pub closed spec fn idx(self) -> nat {
        self.index as nat
    }

    pub fn new(index: usize) -> (r: Self)
        ensures
            r.idx() == index,
    {
        Handle { index }
    }

    pub fn index(&self) -> (r: usize)
        ensures
            r == self.idx(),
    {
        self.index
    }
}

/// `child` is quadrant `k` of `parent` (split at the half sizes, rounded down).
pub open spec fn is_quadrant(child: Bounds, parent: Bounds, k: int) -> bool {
    &&& child.width == parent.width / 2
    &&& child.height == parent.height / 2
    &&& child.x == parent.x + (if k == 2 || k == 3 { parent.width / 2 } else { 0 })
    &&& child.y == parent.y + (if k == 1 || k == 2 { parent.height / 2 } else { 0 })
}

pub open spec fn first_child(i: int) -> int {
    4 * i + 1
}

pub open spec fn parent_of(i: int) -> int {
    (i - 1) / 4
}

pub open spec fn is_internal(i: int) -> bool {
    0 <= i < INTERNAL_COUNT
}

struct AreaNode {
    bounds: Bounds,
    objects: Vec<EntityId>,
}

/// The spatial index: a pre-built tree of regions, each with its member set.
pub struct QuadTree {
    nodes: Vec<AreaNode>,
    bounds: Bounds,
}

/// Why a move was refused, or that it went through.
#[derive(Clone, Copy, Debug, PartialEq, Eq, Structural)]
pub struct MoveSummary {
    pub can_move: bool,
    /// The entity that blocked the move, when a collision refused it.
    pub collide_ent: Option<EntityId>,
}

impl QuadTree {
    pub closed spec fn node_bounds(&self, i: int) -> Bounds {
        self.nodes@[i].bounds
    }

    /// Whether node `i` lists entity `e` as a member.
    pub closed spec fn is_member(&self, i: int, e: EntityId) -> bool {
        0 <= i < NODE_COUNT && self.nodes@[i].objects@.contains(e)
    }

    pub closed spec fn root_bounds(&self) -> Bounds {
        self.bounds
    }

    pub closed spec fn wf(&self) -> bool {
        &&& self.nodes@.len() == NODE_COUNT
        &&& self.nodes@[0].bounds == self.bounds
        &&& forall|j: int| 0 <= j < NODE_COUNT ==> (#[trigger] self.nodes@[j]).objects@.no_duplicates()
        &&& forall|j: int| #![trigger self.nodes@[j]]
            0 < j < NODE_COUNT ==> is_quadrant(self.nodes@[j].bounds, self.nodes@[parent_of(j)].bounds, (j - 1) % 4)
    }

    /// Index of the first child of internal node `i` that strictly contains `q`.
    pub open spec fn child_containing(&self, i: int, q: Rect) -> Option<int> {
        if strictly_inside(q, self.node_bounds(first_child(i))@) {
            Some(first_child(i))
        } else if strictly_inside(q, self.node_bounds(first_child(i) + 1)@) {
            Some(first_child(i) + 1)
        } else if strictly_inside(q, self.node_bounds(first_child(i) + 2)@) {
            Some(first_child(i) + 2)
        } else if strictly_inside(q, self.node_bounds(first_child(i) + 3)@) {
            Some(first_child(i) + 3)
        } else {
            None
        }
    }

    /// Placement descent from node `i`: into the first child that strictly
    /// contains `q`, as long as there is one.
    pub open spec fn descend(&self, i: int, q: Rect) -> int
        decreases NODE_COUNT - i,
    {
        if is_internal(i) {
            match self.child_containing(i, q) {
                Some(c) => if c > i && c < NODE_COUNT { self.descend(c, q) } else { i },
                None => i,
            }
        } else {
            i
        }
    }

    /// The node that placement assigns `q` to: the deepest one on the
    /// descent, or none when the root does not strictly contain `q`.
    pub open spec fn place_spec(&self, q: Rect) -> Option<int> {
        if strictly_inside(q, self.node_bounds(0)@) {
            Some(self.descend(0, q))
        } else {
            None
        }
    }

    /// Nodes that the collision query visits for `q`: the root, and every
    /// child whose bounds overlap `q` of a visited node.
    pub open spec fn visited(&self, i: int, q: Rect) -> bool
        decreases i,
    {
        if i == 0 {
            true
        } else if 0 < i < NODE_COUNT {
            self.visited(parent_of(i), q) && overlaps(self.node_bounds(i)@, q)
        } else {
            false
        }
    }

    /// Entity `m`, listed in a visited node, blocks `entity` (with collider
    /// `collider`) at `q`: another entity, not ignored, alive, and with a
    /// collider overlapping `q`.
    pub open spec fn blocks<C>(&self, ecs: &Ecs<C>, entity: EntityId, collider: Collider2d, q: Rect, m: EntityId) -> bool {
        &&& m != entity
        &&& !collider.ignores().contains(m)
        &&& ecs.alive(m.0 as int)
        &&& ecs.collider(m.0 as int) is Some
        &&& overlaps(ecs.collider(m.0 as int)->0.spec_bounds()@, q)
    }

    pub open spec fn blocker_at<C>(&self, ecs: &Ecs<C>, entity: EntityId, collider: Collider2d, q: Rect, i: int, m: EntityId) -> bool {
        &&& 0 <= i < NODE_COUNT
        &&& self.visited(i, q)
        &&& self.is_member(i, m)
        &&& self.blocks(ecs, entity, collider, q, m)
    }

    pub open spec fn has_blocker<C>(&self, ecs: &Ecs<C>, entity: EntityId, collider: Collider2d, q: Rect) -> bool {
        exists|i: int, m: EntityId| #[trigger] self.blocker_at(ecs, entity, collider, q, i, m)
    }
}

proof fn lemma_child_index(i: int, k: int)
    requires
        is_internal(i),
        0 <= k < 4,
    ensures
        parent_of(first_child(i) + k) == i,
        (first_child(i) + k - 1) % 4 == k,
        0 < first_child(i) + k < NODE_COUNT,
        first_child(i) + k > i,
{
}

/// Quadrant `k` of `parent`, which lies inside a box whose far edges fit `i64`.
fn make_quadrant(parent: &Bounds, k: usize, root: &Bounds) -> (r: Bounds)
    requires
        within(parent@, root@),
        root@.x1 <= i64::MAX,
        root@.y1 <= i64::MAX,
        k < 4,
    ensures
        is_quadrant(r, *parent, k as int),
        within(r@, parent@),
{
    let (pos_x, pos_y) = parent.get_position();
    let (size_x, size_y) = parent.get_half_size();
    let x = if k == 2 || k == 3 { pos_x + size_x as i64 } else { pos_x };
    let y = if k == 1 || k == 2 { pos_y + size_y as i64 } else { pos_y };
    Bounds::new(x, y, size_x, size_y)
}

impl QuadTree {
    /// Builds every node of the tree over `bounds` at once.
    pub fn new(bounds: Bounds) -> (r: Self)
        requires
            bounds@.x1 <= i64::MAX,
            bounds@.y1 <= i64::MAX,
        ensures
            r.wf(),
            r.root_bounds() == bounds,
            r.node_bounds(0) == bounds,
            forall|j: int| #![trigger r.node_bounds(j)]
                0 < j < NODE_COUNT ==> is_quadrant(r.node_bounds(j), r.node_bounds(parent_of(j)), (j - 1) % 4),
            forall|i: int, e: EntityId| !r.is_member(i, e),
    {
        let mut nodes: Vec<AreaNode> = Vec::new();
        nodes.push(AreaNode { bounds, objects: Vec::new() });
        let mut i: usize = 1;
        while i < NODE_COUNT
            invariant
                1 <= i <= NODE_COUNT,
                nodes@.len() == i,
                bounds@.x1 <= i64::MAX,
                bounds@.y1 <= i64::MAX,
                nodes@[0].bounds == bounds,
                forall|j: int| 0 <= j < i ==> within(#[trigger] nodes@[j].bounds@, bounds@),
                forall|j: int| 0 <= j < i ==> (#[trigger] nodes@[j]).objects@.len() == 0,
                forall|j: int| #![trigger nodes@[j]]
                    0 < j < i ==> is_quadrant(nodes@[j].bounds, nodes@[parent_of(j)].bounds, (j - 1) % 4),
            decreases NODE_COUNT - i,
        {
            let p = (i - 1) / CHUNKS;
            let k = (i - 1) % CHUNKS;
            let child = make_quadrant(&nodes[p].bounds, k, &bounds);
            nodes.push(AreaNode { bounds: child, objects: Vec::new() });
            proof {
                assert(nodes@[i as int].bounds == child);
                assert(within(child@, bounds@));
            }
            i += 1;
        }
        let r = QuadTree { nodes, bounds };
        assert forall|i: int, e: EntityId| !r.is_member(i, e) by {
            if 0 <= i < NODE_COUNT {
                assert(r.nodes@[i].objects@.len() == 0);
            }
        }
        r
    }

    /// The root node.
    pub fn root(&self) -> (r: Handle)
        ensures
            r.idx() == 0,
    {
        Handle::new(0)
    }

    /// Whether node `handle` lists `id` as a member.
    pub fn has_object(&self, handle: Handle, id: EntityId) -> (r: bool)
        requires
            self.wf(),
        ensures
            r == self.is_member(handle.idx() as int, id),
    {
        if handle.index() < self.nodes.len() {
            contains_id(&self.nodes[handle.index()].objects, id)
        } else {
            false
        }
    }

    /// The bounds of node `handle`, if it is a node of this tree.
    pub fn node_bounds_of(&self, handle: Handle) -> (r: Option<Bounds>)
        requires
            self.wf(),
        ensures
            r == (if handle.idx() < NODE_COUNT { Some(self.node_bounds(handle.idx() as int)) } else { None::<Bounds> }),
    {
        if handle.index() < self.nodes.len() {
            Some(self.nodes[handle.index()].bounds)
        } else {
            None
        }
    }

    /// The first child of internal node `index` that strictly contains `bounds`.
    fn find_child_node(&self, index: usize, bounds: &Bounds) -> (r: Option<usize>)
        requires
            self.wf(),
            is_internal(index as int),
        ensures
            r == match self.child_containing(index as int, bounds@) {
                Some(c) => Some(c as usize),
                None => None::<usize>,
            },
    {
        let first = index * CHUNKS + 1;
        let mut k: usize = 0;
        while k < CHUNKS
            invariant
                self.wf(),
                first == first_child(index as int),
                first + 3 < NODE_COUNT,
                k <= CHUNKS,
                forall|m: int| 0 <= m < k ==> !strictly_inside(bounds@, #[trigger] self.node_bounds(first + m)@),
            decreases CHUNKS - k,
        {
            if bounds.is_inside_other(&self.nodes[first + k].bounds) {
                proof {
                    if k > 0 { assert(!strictly_inside(bounds@, self.node_bounds(first + 0)@)); }
                    if k > 1 { assert(!strictly_inside(bounds@, self.node_bounds(first + 1)@)); }
                    if k > 2 { assert(!strictly_inside(bounds@, self.node_bounds(first + 2)@)); }
                }
                return Some(first + k);
            }
            k += 1;
        }
        proof {
            assert(!strictly_inside(bounds@, self.node_bounds(first + 0)@));
            assert(!strictly_inside(bounds@, self.node_bounds(first + 1)@));
            assert(!strictly_inside(bounds@, self.node_bounds(first + 2)@));
            assert(!strictly_inside(bounds@, self.node_bounds(first + 3)@));
        }
        None
    }

    /// Placement descent: the deepest node strictly containing `bounds`, or
    /// `None` when even the root does not.
    pub fn get_place_node(&self, bounds: &Bounds) -> (r: Option<Handle>)
        requires
            self.wf(),
        ensures
            match r {
                Some(h) => self.place_spec(bounds@) == Some(h.idx() as int) && h.idx() < NODE_COUNT,
                None => self.place_spec(bounds@) is None,
            },
    {
        if !bounds.is_inside_other(&self.nodes[0].bounds) {
            return None;
        }
        let mut handle: usize = 0;
        loop
            invariant
                self.wf(),
                strictly_inside(bounds@, self.node_bounds(0)@),
                handle < NODE_COUNT,
                self.descend(handle as int, bounds@) == self.descend(0, bounds@),
            ensures
                handle < NODE_COUNT,
                self.descend(handle as int, bounds@) == self.descend(0, bounds@),
                self.descend(handle as int, bounds@) == handle,
            decreases NODE_COUNT - handle,
        {
            if handle >= INTERNAL_COUNT {
                break;
            }
            match self.find_child_node(handle, bounds) {
                Some(c) => {
                    proof {
                        let k = c - first_child(handle as int);
                        lemma_child_index(handle as int, k);
                    }
                    handle = c;
                },
                None => {
                    break;
                },
            }
        }
        Some(Handle::new(handle))
    }
}

fn contains_id(v: &Vec<EntityId>, id: EntityId) -> (r: bool)
    ensures
        r == v@.contains(id),
{
    let mut i: usize = 0;
    while i < v.len()
        invariant
            i <= v@.len(),
            forall|k: int| 0 <= k < i ==> v@[k] != id,
        decreases v@.len() - i,
    {
        if v[i] == id {
            assert(v@[i as int] == id);
            return true;
        }
        i += 1;
    }
    false
}

impl QuadTree {
    /// Only the member sets differ between `self` and `other`.
    pub open spec fn same_shape(&self, other: &QuadTree) -> bool {
        &&& self.wf() == other.wf()
        &&& self.root_bounds() == other.root_bounds()
        &&& forall|j: int| #![trigger self.node_bounds(j)] 0 <= j < NODE_COUNT ==> self.node_bounds(j) == other.node_bounds(j)
    }

    fn insert_object(&mut self, index: usize, object_id: EntityId)
        requires
            old(self).wf(),
            index < NODE_COUNT,
        ensures
            final(self).same_shape(old(self)),
            forall|j: int, e: EntityId| #[trigger] final(self).is_member(j, e) == (old(self).is_member(j, e) || (j == index && e == object_id)),
    {
        let mut node = AreaNode { bounds: self.nodes[index].bounds, objects: Vec::new() };
        self.nodes.set_and_swap(index, &mut node);
        let ghost before = self.nodes@;
        if !contains_id(&node.objects, object_id) {
            node.objects.push(object_id);
        }
        self.nodes.set_and_swap(index, &mut node);
        proof {
            assert forall|j: int| #![trigger self.nodes@[j]] 0 <= j < NODE_COUNT implies self.nodes@[j].bounds == old(self).nodes@[j].bounds by {
                if j != index {
                    assert(self.nodes@[j] == before[j]);
                }
            }
            assert(self.nodes@.len() == NODE_COUNT);
            assert(self.wf());
            assert forall|j: int, e: EntityId| #[trigger] self.is_member(j, e) == (old(self).is_member(j, e) || (j == index && e == object_id)) by {
                if 0 <= j < NODE_COUNT && j != index {
                    assert(self.nodes@[j] == old(self).nodes@[j]);
                }
                if j == index {
                    if e != object_id && self.is_member(j, e) {
                        let t = choose|t: int| 0 <= t < self.nodes@[j].objects@.len() && self.nodes@[j].objects@[t] == e;
                        if t < old(self).nodes@[j].objects@.len() {
                            assert(old(self).nodes@[j].objects@[t] == e);
                        }
                    }
                    if old(self).is_member(j, e) {
                        let t = choose|t: int| 0 <= t < old(self).nodes@[j].objects@.len() && old(self).nodes@[j].objects@[t] == e;
                        assert(self.nodes@[j].objects@[t] == e);
                    }
                    if e == object_id && !old(self).is_member(j, e) {
                        let objs = self.nodes@[j].objects@;
                        assert(objs[objs.len() - 1] == e);
                    }
                }
            }
        }
    }

    fn remove_object(&mut self, index: usize, object_id: EntityId)
        requires
            old(self).wf(),
            index < NODE_COUNT,
        ensures
            final(self).same_shape(old(self)),
            forall|j: int, e: EntityId| #[trigger] final(self).is_member(j, e) == (old(self).is_member(j, e) && !(j == index && e == object_id)),
    {
        let mut node = AreaNode { bounds: self.nodes[index].bounds, objects: Vec::new() };
        self.nodes.set_and_swap(index, &mut node);
        let ghost before = self.nodes@;
        assert(node.objects@.no_duplicates());
        let mut kept: Vec<EntityId> = Vec::new();
        let mut t: usize = 0;
        while t < node.objects.len()
            invariant
                t <= node.objects@.len(),
                node.objects@.no_duplicates(),
                kept@.no_duplicates(),
                forall|e: EntityId| #[trigger] kept@.contains(e) == (e != object_id && node.objects@.take(t as int).contains(e)),
            decreases node.objects@.len() - t,
        {
            let e = node.objects[t];
            let ghost k0 = kept@;
            proof {
                let objs = node.objects@;
                if objs.take(t as int).contains(e) {
                    let q = choose|q: int| 0 <= q < t && objs.take(t as int)[q] == e;
                    assert(objs[q] == objs[t as int]);
                }
                assert(!k0.contains(e));
            }
            if e != object_id {
                kept.push(e);
                proof {
                    assert forall|a: int, b: int| 0 <= a < b < kept@.len() implies kept@[a] != kept@[b] by {
                        if b == kept@.len() - 1 {
                            assert(kept@[a] == k0[a]);
                            assert(k0.contains(k0[a]));
                        } else {
                            assert(kept@[a] == k0[a] && kept@[b] == k0[b]);
                        }
                    }
                }
            }
            proof {
                let objs = node.objects@;
                assert(objs.take(t + 1) =~= objs.take(t as int).push(e));
                assert forall|f: EntityId| #[trigger] kept@.contains(f) == (f != object_id && objs.take(t + 1).contains(f)) by {
                    if f != e {
                        if kept@.contains(f) {
                            let q = choose|q: int| 0 <= q < kept@.len() && kept@[q] == f;
                            if q < k0.len() { assert(k0[q] == f); }
                        }
                        if k0.contains(f) {
                            let q = choose|q: int| 0 <= q < k0.len() && k0[q] == f;
                            assert(kept@[q] == f);
                        }
                        if objs.take(t + 1).contains(f) {
                            let q = choose|q: int| 0 <= q < t + 1 && #[trigger] objs.take(t + 1)[q] == f;
                            assert(objs.take(t as int)[q] == f);
                        }
                        if objs.take(t as int).contains(f) {
                            let q = choose|q: int| 0 <= q < t && #[trigger] objs.take(t as int)[q] == f;
                            assert(objs.take(t + 1)[q] == f);
                        }
                    } else if e != object_id {
                        assert(kept@[kept@.len() - 1] == f);
                        assert(objs.take(t + 1)[t as int] == f);
                    }
                }
            }
            t += 1;
        }
        proof {
            assert(node.objects@.take(node.objects@.len() as int) =~= node.objects@);
        }
        node.objects = kept;
        self.nodes.set_and_swap(index, &mut node);
        proof {
            assert forall|j: int| #![trigger self.nodes@[j]] 0 <= j < NODE_COUNT implies self.nodes@[j].bounds == old(self).nodes@[j].bounds by {
                if j != index {
                    assert(self.nodes@[j] == before[j]);
                }
            }
            assert(self.nodes@.len() == NODE_COUNT);
            assert(self.wf());
            assert forall|j: int, e: EntityId| #[trigger] self.is_member(j, e) == (old(self).is_member(j, e) && !(j == index && e == object_id)) by {
                if 0 <= j < NODE_COUNT && j != index {
                    assert(self.nodes@[j] == old(self).nodes@[j]);
                }
            }
        }
    }

    /// `post` is `pre` with `id` taken out of every node's member set.
    pub open spec fn removed(pre: QuadTree, post: QuadTree, id: EntityId) -> bool {
        &&& post.same_shape(&pre)
        &&& forall|j: int, e: EntityId| #[trigger] post.is_member(j, e) == (pre.is_member(j, e) && e != id)
    }

    /// Removes `id` from every node's member set.
    pub fn on_entity_removed(&mut self, id: EntityId)
        requires
            old(self).wf(),
        ensures
            Self::removed(*old(self), *final(self), id),
    {
        let mut i: usize = 0;
        while i < NODE_COUNT
            invariant
                i <= NODE_COUNT,
                self.same_shape(old(self)),
                self.wf(),
                forall|j: int, e: EntityId| #[trigger] self.is_member(j, e) == (old(self).is_member(j, e) && !(e == id && j < i)),
            decreases NODE_COUNT - i,
        {
            self.remove_object(i, id);
            i += 1;
        }
        assert forall|j: int, e: EntityId| #[trigger] self.is_member(j, e) == (old(self).is_member(j, e) && e != id) by {
            if j >= NODE_COUNT {
                assert(!self.is_member(j, e));
                assert(!old(self).is_member(j, e));
            }
        }
    }
}

impl QuadTree {
    /// The first member of node `i` that blocks `entity` at `bounds`.
    fn scan_node<C>(&self, ecs: &Ecs<C>, entity: EntityId, collider: &Collider2d, bounds: &Bounds, i: usize) -> (r: Option<EntityId>)
        requires
            self.wf(),
            i < NODE_COUNT,
            self.visited(i as int, bounds@),
        ensures
            match r {
                Some(m) => self.blocker_at(ecs, entity, *collider, bounds@, i as int, m),
                None => forall|m: EntityId| !#[trigger] self.blocker_at(ecs, entity, *collider, bounds@, i as int, m),
            },
    {
        let objs = &self.nodes[i].objects;
        let mut t: usize = 0;
        while t < objs.len()
            invariant
                self.wf(),
                i < NODE_COUNT,
                self.visited(i as int, bounds@),
                objs@ == self.nodes@[i as int].objects@,
                t <= objs@.len(),
                forall|u: int| 0 <= u < t ==> !self.blocks(ecs, entity, *collider, bounds@, #[trigger] objs@[u]),
            decreases objs@.len() - t,
        {
            let m = objs[t];
            if m != entity && !collider.is_ignored_entity(m) {
                match ecs.get_collider(m) {
                    Some(c) => {
                        if c.get_bounds().has_collision(bounds) {
                            assert(self.is_member(i as int, m));
                            return Some(m);
                        }
                    },
                    None => {},
                }
            }
            t += 1;
        }
        assert forall|m: EntityId| !#[trigger] self.blocker_at(ecs, entity, *collider, bounds@, i as int, m) by {
            if self.is_member(i as int, m) {
                let u = choose|u: int| 0 <= u < objs@.len() && objs@[u] == m;
                assert(!self.blocks(ecs, entity, *collider, bounds@, objs@[u]));
            }
        }
        None
    }

    /// Collision query: looks, node by node in breadth-first order, for an
    /// entity that blocks `entity` (whose collider is `collider`) at
    /// `bounds`, and returns the first one found: no node before its node
    /// holds a blocker.
    pub fn is_collisions_exist<C>(&self, ecs: &Ecs<C>, entity: EntityId, collider: &Collider2d, bounds: &Bounds) -> (r: Option<EntityId>)
        requires
            self.wf(),
        ensures
            r is None <==> !self.has_blocker(ecs, entity, *collider, bounds@),
            match r {
                Some(m) => exists|i: int| #[trigger] self.blocker_at(ecs, entity, *collider, bounds@, i, m)
                    && forall|j: int, m2: EntityId| 0 <= j < i ==> !#[trigger] self.blocker_at(ecs, entity, *collider, bounds@, j, m2),
                None => true,
            },
    {
        let ghost q = bounds@;
        let mut vis: Vec<bool> = Vec::new();
        let mut i: usize = 0;
        while i < NODE_COUNT
            invariant
                self.wf(),
                q == bounds@,
                i <= NODE_COUNT,
                vis@.len() == i,
                forall|j: int| 0 <= j < i ==> #[trigger] vis@[j] == self.visited(j, q),
                forall|j: int, m: EntityId| 0 <= j < i ==> !#[trigger] self.blocker_at(ecs, entity, *collider, q, j, m),
            decreases NODE_COUNT - i,
        {
            let v = if i == 0 {
                true
            } else {
                vis[(i - 1) / CHUNKS] && self.nodes[i].bounds.has_collision(bounds)
            };
            vis.push(v);
            if v {
                match self.scan_node(ecs, entity, collider, bounds, i) {
                    Some(m) => {
                        return Some(m);
                    },
                    None => {},
                }
            }
            i += 1;
        }
        proof {
            assert(!self.has_blocker(ecs, entity, *collider, q)) by {
                assert forall|j: int, m: EntityId| !#[trigger] self.blocker_at(ecs, entity, *collider, q, j, m) by {
                    if 0 <= j < NODE_COUNT {
                    }
                }
            }
        }
        None
    }

    /// `post_t` and `post_e` are what `place(entity)` makes of `pre_t` and `pre_e`.
    pub open spec fn placed<C>(pre_t: QuadTree, post_t: QuadTree, pre_e: Ecs<C>, post_e: Ecs<C>, entity: EntityId) -> bool {
        let c = pre_e.collider(entity.0 as int);
        let target = if pre_e.alive(entity.0 as int) && c is Some {
            pre_t.place_spec(c->0.spec_bounds()@)
        } else {
            None
        };
        &&& post_t.same_shape(&pre_t)
        &&& post_e.same_but_collider(&pre_e, entity.0 as int)
        &&& target is None ==> post_e.collider(entity.0 as int) == c
            && forall|j: int, e: EntityId| #[trigger] post_t.is_member(j, e) == pre_t.is_member(j, e)
        &&& target matches Some(t) ==> {
            let fc = post_e.collider(entity.0 as int)->0;
            &&& post_e.collider(entity.0 as int) is Some
            &&& fc.spec_area_handle() matches Some(h) && h.idx() == t
            &&& fc.spec_bounds() == c->0.spec_bounds()
            &&& fc.spec_reached_border() == c->0.spec_reached_border()
            &&& fc.spec_entity() == c->0.spec_entity()
            &&& fc.ignores() == c->0.ignores()
            &&& forall|j: int, e: EntityId| #[trigger] post_t.is_member(j, e) == if e == entity {
                j == t
            } else {
                pre_t.is_member(j, e)
            }
        }
    }

    /// Places `entity` by its collider: makes the node that placement
    /// assigns its bounds to the only node listing it, and records that node
    /// on the collider. Nothing happens for a dead entity, one without a
    /// collider, or bounds the root does not strictly contain.
    pub fn place<C>(&mut self, ecs: &mut Ecs<C>, entity: EntityId)
        requires
            old(self).wf(),
        ensures
            Self::placed(*old(self), *final(self), *old(ecs), *final(ecs), entity),
    {
        let b = match ecs.get_collider(entity) {
            Some(c) => c.get_bounds(),
            None => {
                return;
            },
        };
        match self.get_place_node(&b) {
            Some(h) => {
                self.on_entity_removed(entity);
                self.insert_object(h.index(), entity);
                match ecs.get_collider_mut(entity) {
                    Some(cm) => {
                        cm.set_area_handle(Some(h));
                    },
                    None => {},
                }
            },
            None => {},
        }
    }
}

/// The box a collider would have centered at `(x, y)`, when its corner fits
/// the coordinate type.
pub open spec fn target_rect(c: Collider2d, x: i64, y: i64) -> Option<Rect> {
    let b = c.spec_bounds();
    if x - b.spec_width() / 2 >= i64::MIN && y - b.spec_height() / 2 >= i64::MIN {
        Some(crate::bounds::centered_rect(x as int, y as int, b.spec_width(), b.spec_height()))
    } else {
        None
    }
}

impl QuadTree {
    /// The node a move of `c` to center `(x, y)` would land in.
    pub open spec fn move_target(&self, c: Collider2d, x: i64, y: i64) -> Option<int> {
        match target_rect(c, x, y) {
            Some(t) => self.place_spec(t),
            None => None,
        }
    }

    /// `post_t`, `post_e` and `r` are what `move_object(entity, x, y)` makes of
    /// `pre_t` and `pre_e`.
    pub open spec fn moved<C>(pre_t: QuadTree, post_t: QuadTree, pre_e: Ecs<C>, post_e: Ecs<C>, entity: EntityId, x: i64, y: i64, r: MoveSummary) -> bool {
        &&& post_t.same_shape(&pre_t)
        &&& post_e.same_but_collider(&pre_e, entity.0 as int)
        &&& {
                let c = pre_e.collider(entity.0 as int);
                let fc = post_e.collider(entity.0 as int);
                let unchanged_tree = forall|j: int, e: EntityId| #[trigger] post_t.is_member(j, e) == pre_t.is_member(j, e);
                if !(pre_e.alive(entity.0 as int) && c is Some) {
                    &&& r == MoveSummary { can_move: false, collide_ent: None }
                    &&& fc == c
                    &&& unchanged_tree
                } else {
                    let c = c->0;
                    match pre_t.move_target(c, x, y) {
                        None => {
                            &&& r == MoveSummary { can_move: false, collide_ent: None }
                            &&& fc is Some
                            &&& fc->0.spec_reached_border()
                            &&& fc->0.spec_bounds() == c.spec_bounds()
                            &&& fc->0.spec_area_handle() == c.spec_area_handle()
                            &&& fc->0.spec_entity() == c.spec_entity()
                            &&& fc->0.ignores() == c.ignores()
                            &&& unchanged_tree
                        },
                        Some(t) => {
                            let q = target_rect(c, x, y)->0;
                            if pre_t.has_blocker(&pre_e, entity, c, q) {
                                &&& !r.can_move
                                &&& r.collide_ent is Some
                                &&& exists|i: int| #[trigger] pre_t.blocker_at(&pre_e, entity, c, q, i, r.collide_ent->0)
                                &&& fc == Some(c)
                                &&& unchanged_tree
                            } else {
                                &&& r == MoveSummary { can_move: true, collide_ent: None }
                                &&& fc is Some
                                &&& fc->0.spec_bounds()@ == q
                                &&& fc->0.spec_bounds().spec_width() == c.spec_bounds().spec_width()
                                &&& fc->0.spec_bounds().spec_height() == c.spec_bounds().spec_height()
                                &&& !fc->0.spec_reached_border()
                                &&& fc->0.spec_area_handle() matches Some(h) && h.idx() == t
                                &&& fc->0.spec_entity() == c.spec_entity()
                                &&& fc->0.ignores() == c.ignores()
                                &&& forall|j: int, e: EntityId| #[trigger] post_t.is_member(j, e) == if e == entity {
                                    j == t
                                } else {
                                    pre_t.is_member(j, e)
                                }
                            }
                        },
                    }
                }
            }
    }

    /// Moves `entity`'s collider so that `(x, y)` becomes its center, as a
    /// check-then-commit transaction.
    ///
    /// - No live entity with a collider: refused, nothing changes.
    /// - No node strictly contains the moved box: refused; only the
    ///   collider's out-of-bounds flag is set.
    /// - Another entity blocks the moved box: refused with that entity's id;
    ///   nothing changes.
    /// - Otherwise the collider takes the new box, a cleared flag and the new
    ///   node, and the new node becomes the only one listing the entity.
    pub fn move_object<C>(&mut self, ecs: &mut Ecs<C>, entity: EntityId, x: i64, y: i64) -> (r: MoveSummary)
        requires
            old(self).wf(),
        ensures
            Self::moved(*old(self), *final(self), *old(ecs), *final(ecs), entity, x, y, r),
    {
        let current = match ecs.get_collider(entity) {
            Some(c) => c.get_bounds(),
            None => {
                return MoveSummary { can_move: false, collide_ent: None };
            },
        };
        let target = match current.recentered(x, y) {
            Some(tb) => match self.get_place_node(&tb) {
                Some(h) => Some((tb, h)),
                None => None,
            },
            None => None,
        };
        match target {
            None => {
                match ecs.get_collider_mut(entity) {
                    Some(cm) => {
                        cm.set_reached_border(true);
                    },
                    None => {},
                }
                MoveSummary { can_move: false, collide_ent: None }
            },
            Some((tb, h)) => {
                let blocker = match ecs.get_collider(entity) {
                    Some(c) => self.is_collisions_exist(ecs, entity, c, &tb),
                    None => None,
                };
                if let Some(b) = blocker {
                    return MoveSummary { can_move: false, collide_ent: Some(b) };
                }
                self.on_entity_removed(entity);
                self.insert_object(h.index(), entity);
                match ecs.get_collider_mut(entity) {
                    Some(cm) => {
                        cm.set_bounds(tb);
                        cm.set_reached_border(false);
                        cm.set_area_handle(Some(h));
                    },
                    None => {},
                }
                MoveSummary { can_move: true, collide_ent: None }
            },
        }
    }
}

impl QuadTree {
    proof fn lemma_descend(&self, i: int, q: Rect)
        requires
            self.wf(),
            0 <= i < NODE_COUNT,
            strictly_inside(q, self.node_bounds(i)@),
        ensures
            i <= self.descend(i, q) < NODE_COUNT,
            strictly_inside(q, self.node_bounds(self.descend(i, q))@),
            is_internal(self.descend(i, q)) ==> self.child_containing(self.descend(i, q), q) is None,
        decreases NODE_COUNT - i,
    {
        if is_internal(i) {
            match self.child_containing(i, q) {
                Some(c) => {
                    let k = c - first_child(i);
                    lemma_child_index(i, k);
                    self.lemma_descend(c, q);
                },
                None => {},
            }
        }
    }

    /// Placement lands on the deepest node that strictly contains the box:
    /// that node strictly contains it and none of its children does. It
    /// lands nowhere exactly when the root does not strictly contain it.
    pub proof fn law_placement_is_deepest(&self, q: Rect)
        requires
            self.wf(),
        ensures
            self.place_spec(q) is None <==> !strictly_inside(q, self.root_bounds()@),
            self.place_spec(q) matches Some(r) ==> {
                &&& 0 <= r < NODE_COUNT
                &&& strictly_inside(q, self.node_bounds(r)@)
                &&& is_internal(r) ==> forall|k: int| 0 <= k < 4 ==> !strictly_inside(q, #[trigger] self.node_bounds(first_child(r) + k)@)
            },
    {
        if strictly_inside(q, self.node_bounds(0)@) {
            self.lemma_descend(0, q);
            let r = self.descend(0, q);
            if is_internal(r) {
                assert forall|k: int| 0 <= k < 4 implies !strictly_inside(q, #[trigger] self.node_bounds(first_child(r) + k)@) by {
                    assert(self.child_containing(r, q) is None);
                }
            }
        }
    }

    /// A box equal to a node's own bounds is never placed at that node
    /// (containment is strict): it lands on a node whose region strictly
    /// encloses it, or nowhere.
    pub proof fn law_node_bounds_not_placed_at_node(&self, n: int)
        requires
            self.wf(),
            0 <= n < NODE_COUNT,
        ensures
            self.place_spec(self.node_bounds(n)@) != Some(n),
            self.place_spec(self.node_bounds(n)@) matches Some(r) ==> strictly_inside(self.node_bounds(n)@, self.node_bounds(r)@),
    {
        self.law_placement_is_deepest(self.node_bounds(n)@);
    }
}

/// The placement invariant: a node lists an entity only if the entity's
/// collider records that node and its box lies within the node. So each
/// entity sits in at most one node.
pub open spec fn placement_ok<C>(t: QuadTree, ecs: Ecs<C>) -> bool {
    forall|j: int, e: EntityId| #[trigger] t.is_member(j, e) ==> {
        let c = ecs.collider(e.0 as int);
        &&& c is Some
        &&& c->0.spec_area_handle() matches Some(h) && h.idx() == j
        &&& within(c->0.spec_bounds()@, t.node_bounds(j)@)
    }
}

impl QuadTree {
    /// Only nodes of the tree list members.
    pub proof fn lemma_member_index(&self, j: int, e: EntityId)
        ensures
            self.is_member(j, e) ==> 0 <= j < NODE_COUNT,
    {
    }

    /// Under the placement invariant an entity is listed by one node at most.
    pub proof fn law_one_node<C>(t: QuadTree, ecs: Ecs<C>, e: EntityId, j1: int, j2: int)
        requires
            placement_ok(t, ecs),
            t.is_member(j1, e),
            t.is_member(j2, e),
        ensures
            j1 == j2,
    {
    }

    /// A fresh tree lists nobody, so it meets the invariant with any store.
    pub proof fn law_new_tree_placement<C>(t: QuadTree, ecs: Ecs<C>)
        requires
            forall|i: int, e: EntityId| !t.is_member(i, e),
        ensures
            placement_ok(t, ecs),
    {
    }

    /// `place` keeps the placement invariant.
    pub proof fn law_place_keeps_placement<C>(t0: QuadTree, t1: QuadTree, e0: Ecs<C>, e1: Ecs<C>, entity: EntityId)
        requires
            t0.wf(),
            placement_ok(t0, e0),
            Self::placed(t0, t1, e0, e1, entity),
        ensures
            placement_ok(t1, e1),
    {
        let c = e0.collider(entity.0 as int);
        if e0.alive(entity.0 as int) && c is Some {
            t0.law_placement_is_deepest(c->0.spec_bounds()@);
        }
        assert forall|j: int, e: EntityId| #[trigger] t1.is_member(j, e) implies {
            let c = e1.collider(e.0 as int);
            &&& c is Some
            &&& c->0.spec_area_handle() matches Some(h) && h.idx() == j
            &&& within(c->0.spec_bounds()@, t1.node_bounds(j)@)
        } by {
            assert(t1.node_bounds(j) == t0.node_bounds(j));
            if e != entity {
                assert(e.0 != entity.0);
                assert(t0.is_member(j, e));
            }
        }
    }

    /// `on_entity_removed` keeps the placement invariant.
    pub proof fn law_removal_keeps_placement<C>(t0: QuadTree, t1: QuadTree, ecs: Ecs<C>, id: EntityId)
        requires
            placement_ok(t0, ecs),
            Self::removed(t0, t1, id),
        ensures
            placement_ok(t1, ecs),
    {
        assert forall|j: int, e: EntityId| #[trigger] t1.is_member(j, e) implies {
            let c = ecs.collider(e.0 as int);
            &&& c is Some
            &&& c->0.spec_area_handle() matches Some(h) && h.idx() == j
            &&& within(c->0.spec_bounds()@, t1.node_bounds(j)@)
        } by {
            assert(t0.is_member(j, e));
            assert(t1.node_bounds(j) == t0.node_bounds(j));
        }
    }

    /// `move_object` keeps the placement invariant.
    pub proof fn law_move_keeps_placement<C>(
        t0: QuadTree,
        t1: QuadTree,
        e0: Ecs<C>,
        e1: Ecs<C>,
        entity: EntityId,
        x: i64,
        y: i64,
        r: MoveSummary,
    )
        requires
            t0.wf(),
            placement_ok(t0, e0),
            Self::moved(t0, t1, e0, e1, entity, x, y, r),
        ensures
            placement_ok(t1, e1),
    {
        let c = e0.collider(entity.0 as int);
        if e0.alive(entity.0 as int) && c is Some {
            if let Some(q) = target_rect(c->0, x, y) {
                t0.law_placement_is_deepest(q);
            }
        }
        assert forall|j: int, e: EntityId| #[trigger] t1.is_member(j, e) implies {
            let c = e1.collider(e.0 as int);
            &&& c is Some
            &&& c->0.spec_area_handle() matches Some(h) && h.idx() == j
            &&& within(c->0.spec_bounds()@, t1.node_bounds(j)@)
        } by {
            assert(t1.node_bounds(j) == t0.node_bounds(j));
            if e != entity {
                assert(e.0 != entity.0);
                assert(t0.is_member(j, e));
            }
        }
    }

    proof fn lemma_quadrant_within(&self, j: int)
        requires
            self.wf(),
            0 < j < NODE_COUNT,
        ensures
            0 <= parent_of(j) < j,
            within(self.node_bounds(j)@, self.node_bounds(parent_of(j))@),
    {
        assert(is_quadrant(self.nodes@[j].bounds, self.nodes@[parent_of(j)].bounds, (j - 1) % 4));
    }

    /// A node whose region holds a box overlapping `q` is visited by the
    /// collision query for `q`.
    proof fn lemma_visited(&self, j: int, b: Rect, q: Rect)
        requires
            self.wf(),
            0 <= j < NODE_COUNT,
            within(b, self.node_bounds(j)@),
            overlaps(b, q),
        ensures
            self.visited(j, q),
        decreases j,
    {
        if j > 0 {
            self.lemma_quadrant_within(j);
            self.lemma_visited(parent_of(j), b, q);
        }
    }

    /// Under the placement invariant, the collision query finds every other
    /// live, non-ignored entity listed anywhere in the tree whose collider
    /// overlaps the box.
    pub proof fn law_placed_overlap_detected<C>(
        &self,
        ecs: Ecs<C>,
        entity: EntityId,
        collider: Collider2d,
        q: Rect,
        j: int,
        m: EntityId,
    )
        requires
            self.wf(),
            placement_ok(*self, ecs),
            self.is_member(j, m),
            m != entity,
            !collider.ignores().contains(m),
            ecs.alive(m.0 as int),
            overlaps(ecs.collider(m.0 as int)->0.spec_bounds()@, q),
        ensures
            self.has_blocker(&ecs, entity, collider, q),
    {
        self.lemma_visited(j, ecs.collider(m.0 as int)->0.spec_bounds()@, q);
        assert(self.blocker_at(&ecs, entity, collider, q, j, m));
    }

    /// Under the placement invariant, moving `b` onto a box that overlaps the
    /// collider of another live, placed entity `a` (not ignored by `b`) is
    /// refused, and `b`'s collider keeps its box.
    pub proof fn law_overlapping_move_refused<C>(
        t1: QuadTree,
        t2: QuadTree,
        e1: Ecs<C>,
        e2: Ecs<C>,
        a: EntityId,
        ja: int,
        b: EntityId,
        x: i64,
        y: i64,
        r: MoveSummary,
    )
        requires
            t1.wf(),
            placement_ok(t1, e1),
            t1.is_member(ja, a),
            a != b,
            e1.alive(a.0 as int),
            e1.alive(b.0 as int),
            e1.collider(b.0 as int) is Some,
            !e1.collider(b.0 as int)->0.ignores().contains(a),
            target_rect(e1.collider(b.0 as int)->0, x, y) matches Some(q)
                && overlaps(e1.collider(a.0 as int)->0.spec_bounds()@, q),
            Self::moved(t1, t2, e1, e2, b, x, y, r),
        ensures
            !r.can_move,
            e2.collider(b.0 as int) is Some,
            e2.collider(b.0 as int)->0.spec_bounds() == e1.collider(b.0 as int)->0.spec_bounds(),
    {
        let cb = e1.collider(b.0 as int)->0;
        let q = target_rect(cb, x, y)->0;
        t1.law_placed_overlap_detected(e1, b, cb, q, ja, a);
    }

    /// Two different children of a node never both strictly contain a box.
    proof fn lemma_siblings(&self, i: int, k1: int, k2: int, q: Rect)
        requires
            self.wf(),
            is_internal(i),
            0 <= k1 < 4,
            0 <= k2 < 4,
            k1 != k2,
            q.x0 <= q.x1,
            q.y0 <= q.y1,
        ensures
            !(strictly_inside(q, self.node_bounds(first_child(i) + k1)@) && strictly_inside(q, self.node_bounds(first_child(i) + k2)@)),
    {
        lemma_child_index(i, k1);
        lemma_child_index(i, k2);
        let j1 = first_child(i) + k1;
        let j2 = first_child(i) + k2;
        assert(is_quadrant(self.nodes@[j1].bounds, self.nodes@[i].bounds, k1));
        assert(is_quadrant(self.nodes@[j2].bounds, self.nodes@[i].bounds, k2));
    }

    /// The only child of internal node `i` strictly containing `q` is `c`.
    proof fn lemma_unique_child(&self, i: int, k: int, q: Rect)
        requires
            self.wf(),
            is_internal(i),
            0 <= k < 4,
            q.x0 <= q.x1,
            q.y0 <= q.y1,
            strictly_inside(q, self.node_bounds(first_child(i) + k)@),
        ensures
            self.child_containing(i, q) == Some(first_child(i) + k),
    {
        if k != 0 { self.lemma_siblings(i, 0, k, q); }
        if k != 1 { self.lemma_siblings(i, 1, k, q); }
        if k != 2 { self.lemma_siblings(i, 2, k, q); }
        if k != 3 { self.lemma_siblings(i, 3, k, q); }
        assert(first_child(i) + 0 == first_child(i));
    }

    /// A box strictly inside a leaf's region is placed at that leaf.
    pub proof fn law_inside_leaf_placed_there(&self, q: Rect, l: int)
        requires
            self.wf(),
            INTERNAL_COUNT <= l < NODE_COUNT,
            q.x0 <= q.x1,
            q.y0 <= q.y1,
            strictly_inside(q, self.node_bounds(l)@),
        ensures
            self.place_spec(q) == Some(l),
    {
        self.lemma_quadrant_within(l);
        let p = parent_of(l);
        assert(0 < p < INTERNAL_COUNT);
        self.lemma_quadrant_within(p);
        assert(parent_of(p) == 0);
        let kl = l - first_child(p);
        let kp = p - first_child(0);
        assert(0 <= kl < 4);
        assert(0 <= kp < 4);
        self.lemma_unique_child(p, kl, q);
        self.lemma_unique_child(0, kp, q);
        assert(self.descend(l, q) == l);
        assert(self.descend(p, q) == self.descend(l, q));
        assert(self.descend(0, q) == self.descend(p, q));
    }
}

impl QuadTree {
    /// A box lying within one child never lies strictly inside another.
    proof fn lemma_within_sibling(&self, i: int, k1: int, k2: int, q: Rect)
        requires
            self.wf(),
            is_internal(i),
            0 <= k1 < 4,
            0 <= k2 < 4,
            k1 != k2,
            q.x0 <= q.x1,
            q.y0 <= q.y1,
            within(q, self.node_bounds(first_child(i) + k1)@),
        ensures
            !strictly_inside(q, self.node_bounds(first_child(i) + k2)@),
    {
        lemma_child_index(i, k1);
        lemma_child_index(i, k2);
        let j1 = first_child(i) + k1;
        let j2 = first_child(i) + k2;
        assert(is_quadrant(self.nodes@[j1].bounds, self.nodes@[i].bounds, k1));
        assert(is_quadrant(self.nodes@[j2].bounds, self.nodes@[i].bounds, k2));
    }

    /// No child strictly contains a box that lies within child `k` without
    /// being strictly inside it.
    proof fn lemma_no_child(&self, i: int, k: int, q: Rect)
        requires
            self.wf(),
            is_internal(i),
            0 <= k < 4,
            q.x0 <= q.x1,
            q.y0 <= q.y1,
            within(q, self.node_bounds(first_child(i) + k)@),
            !strictly_inside(q, self.node_bounds(first_child(i) + k)@),
        ensures
            self.child_containing(i, q) is None,
    {
        if k != 0 { self.lemma_within_sibling(i, k, 0, q); }
        if k != 1 { self.lemma_within_sibling(i, k, 1, q); }
        if k != 2 { self.lemma_within_sibling(i, k, 2, q); }
        if k != 3 { self.lemma_within_sibling(i, k, 3, q); }
        assert(first_child(i) + 0 == first_child(i));
    }

    /// A box equal to the bounds of a node `n` other than the root is placed
    /// at the nearest proper ancestor of `n` that strictly contains it, or
    /// nowhere when none does.
    pub proof fn law_node_bounds_nearest_ancestor(&self, n: int)
        requires
            self.wf(),
            0 < n < NODE_COUNT,
        ensures
            n < INTERNAL_COUNT ==> self.place_spec(self.node_bounds(n)@)
                == if strictly_inside(self.node_bounds(n)@, self.node_bounds(0)@) { Some(0int) } else { None },
            n >= INTERNAL_COUNT ==> self.place_spec(self.node_bounds(n)@)
                == if strictly_inside(self.node_bounds(n)@, self.node_bounds(parent_of(n))@) {
                    Some(parent_of(n))
                } else if strictly_inside(self.node_bounds(n)@, self.node_bounds(0)@) {
                    Some(0int)
                } else {
                    None
                },
    {
        let q = self.node_bounds(n)@;
        self.lemma_quadrant_within(n);
        let p = parent_of(n);
        if n < INTERNAL_COUNT {
            assert(p == 0);
            self.lemma_no_child(0, n - 1, q);
            assert(self.descend(0, q) == 0);
        } else {
            assert(0 < p < INTERNAL_COUNT);
            self.lemma_quadrant_within(p);
            assert(parent_of(p) == 0);
            let kn = n - first_child(p);
            let kp = p - first_child(0);
            assert(0 <= kn < 4);
            assert(0 <= kp < 4);
            self.lemma_no_child(p, kn, q);
            assert(self.descend(p, q) == p);
            if strictly_inside(q, self.node_bounds(p)@) {
                self.lemma_unique_child(0, kp, q);
                assert(self.descend(0, q) == self.descend(p, q));
            } else {
                self.lemma_no_child(0, kp, q);
                assert(self.descend(0, q) == 0);
            }
        }
    }
}

} // verus!
