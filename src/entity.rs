//! Entity identifiers and the directory that hands them out.
use vstd::prelude::*;
use bit_vec::BitVec;

verus! {

/// An entity identifier. Unique while alive; recycled after destruction.
#[derive(Clone, Copy, Debug, PartialEq, Eq, Hash, Structural)]
pub struct EntityId(pub usize);

impl EntityId {
    pub open spec fn id(self) -> nat {
        self.0 as nat
    }
}

#[verifier::external_type_specification]
#[verifier::external_body]
#[verifier::reject_recursive_types(B)]
pub struct ExBitVec<B>(BitVec<B>);

/// What a bit vector holds, bit by bit.
pub uninterp spec fn bits_of(b: BitVec) -> Seq<bool>;

/// Relies on `BitVec::from_elem`: `len` copies of `bit`.
#[verifier::external_body]
fn bits_from_elem(len: usize, bit: bool) -> (r: BitVec)
    ensures
        bits_of(r) == Seq::new(len as nat, |_i: int| bit),
{
    BitVec::from_elem(len, bit)
}

/// Relies on `BitVec::len`: the number of bits held.
#[verifier::external_body]
fn bits_len(b: &BitVec) -> (r: usize)
    ensures
        r == bits_of(*b).len(),
{
    b.len()
}

/// Relies on `BitVec::get`: the bit at `i`, `None` past the end.
#[verifier::external_body]
fn bits_get(b: &BitVec, i: usize) -> (r: Option<bool>)
    ensures
        r == (if i < bits_of(*b).len() { Some(bits_of(*b)[i as int]) } else { None::<bool> }),
{
    b.get(i)
}

/// Relies on `BitVec::set`: writes one bit; it panics past the end.
#[verifier::external_body]
fn bits_set(b: &mut BitVec, i: usize, x: bool)
    requires
        i < bits_of(*old(b)).len(),
    ensures
        bits_of(*final(b)) == bits_of(*old(b)).update(i as int, x),
{
    b.set(i, x)
}

/// Relies on `BitVec::grow`: appends `n` copies of `value`; it panics when
/// the new length overflows.
#[verifier::external_body]
fn bits_grow(b: &mut BitVec, n: usize, value: bool)
    requires
        bits_of(*old(b)).len() + n <= usize::MAX,
    ensures
        bits_of(*final(b)) == bits_of(*old(b)) + Seq::new(n as nat, |_i: int| value),
{
    b.grow(n, value)
}

/// Relies on `BitVec::clone`: a copy with the same bits.
#[verifier::external_body]
fn bits_clone(b: &BitVec) -> (r: BitVec)
    ensures
        bits_of(r) == bits_of(*b),
{
    b.clone()
}

/// The abstract state of a directory: how many ids were ever issued, which
/// are alive, and the stack of ids waiting for reuse (top at the end).
pub ghost struct DirectoryView {
    pub issued: nat,
    pub alive: Set<nat>,
    pub free: Seq<nat>,
}

/// Allocator of entity ids over a free list and a liveness bit set.
pub struct EntityDirectory {
    issued: usize,
    free_indexes: Vec<EntityId>,
    check_bit: BitVec,
}

/// How many bits the liveness set grows by when it runs out.
pub const GROW_SIZE: usize = 128;

impl View for EntityDirectory {
    type V = DirectoryView;

    closed spec fn view(&self) -> DirectoryView {
        DirectoryView {
            issued: self.issued as nat,
            alive: Set::new(|i: nat| i < bits_of(self.check_bit).len() && bits_of(self.check_bit)[i as int]),
            free: self.free_indexes@.map_values(|e: EntityId| e.id()),
        }
    }
}

impl EntityDirectory {
    /// The directory's internal agreement between bit set, free list and count.
    pub closed spec fn wf(&self) -> bool {
        let bits = bits_of(self.check_bit);
        &&& self.issued <= bits.len()
        &&& bits.len() <= self.issued + GROW_SIZE
        &&& forall|i: int| self.issued <= i < bits.len() ==> !bits[i]
        &&& forall|k: int| 0 <= k < self.free_indexes@.len() ==> self.free_indexes@[k].id() < self.issued
        &&& forall|k: int| 0 <= k < self.free_indexes@.len() ==> !bits[self.free_indexes@[k].0 as int]
        &&& forall|i: int| 0 <= i < self.issued && !bits[i] ==> exists|k: int| 0 <= k < self.free_indexes@.len() && self.free_indexes@[k].0 == i
        &&& forall|k1: int, k2: int| 0 <= k1 < k2 < self.free_indexes@.len() ==> self.free_indexes@[k1] != self.free_indexes@[k2]
    }

    /// Every id on the free list was issued, is dead, and occurs once.
    pub open spec fn free_list_ok(v: DirectoryView) -> bool {
        &&& forall|k: int| 0 <= k < v.free.len() ==> #[trigger] v.free[k] < v.issued && !v.alive.contains(v.free[k])
        &&& v.free.no_duplicates()
    }

    /// A well-formed directory keeps its free list in order: issued, dead,
    /// and without repeats.
    pub proof fn lemma_free_list(&self)
        requires
            self.wf(),
        ensures
            Self::free_list_ok(self@),
    {
        let fi = self.free_indexes@;
        assert forall|a: int, b: int| 0 <= a < self@.free.len() && 0 <= b < self@.free.len() && a != b
            implies self@.free[a] != self@.free[b] by {
            if a < b {
                assert(fi[a] != fi[b]);
            } else {
                assert(fi[b] != fi[a]);
            }
        }
    }

    /// An id can be handed out: one waits for reuse, or room is left for
    /// one more fresh id and one more batch of bits.
    pub open spec fn can_allocate(&self) -> bool {
        self@.free.len() > 0 || self@.issued + 2 * GROW_SIZE <= usize::MAX
    }

    /// Whether an id waits for reuse.
    pub fn has_free(&self) -> (r: bool)
        ensures
            r == (self@.free.len() > 0),
    {
        self.free_indexes.len() > 0
    }

    pub fn new() -> (r: Self)
        ensures
            r.wf(),
            r@.issued == 0,
            r@.alive == Set::<nat>::empty(),
            r@.free == Seq::<nat>::empty(),
    {
        let r = Self {
            issued: 0,
            free_indexes: Vec::with_capacity(GROW_SIZE),
            check_bit: bits_from_elem(GROW_SIZE, false),
        };
        assert(r@.alive =~= Set::<nat>::empty());
        assert(r@.free =~= Seq::<nat>::empty());
        r
    }

    /// The id handed out next: the top of the free list, else a fresh one.
    pub open spec fn next_id(v: DirectoryView) -> nat {
        if v.free.len() > 0 {
            v.free.last()
        } else {
            v.issued
        }
    }

    /// Hands out an id: pops the free list, else issues a fresh id (growing
    /// the liveness set by a batch when needed), and marks it alive.
    pub fn create_entity_handle(&mut self) -> (r: EntityId)
        requires
            old(self).wf(),
            old(self).can_allocate(),
        ensures
            final(self).wf(),
            r.id() == Self::next_id(old(self)@),
            !old(self)@.alive.contains(r.id()),
            final(self)@.alive == old(self)@.alive.insert(r.id()),
            old(self)@.free.len() > 0 ==> final(self)@.free == old(self)@.free.drop_last()
                && final(self)@.issued == old(self)@.issued,
            old(self)@.free.len() == 0 ==> final(self)@.free == old(self)@.free
                && final(self)@.issued == old(self)@.issued + 1,
    {
        if let Some(id) = self.free_indexes.pop() {
            proof {
                let fi = old(self).free_indexes@;
                assert(fi[fi.len() - 1] == id);
                assert forall|i: int| 0 <= i < self.issued && !bits_of(self.check_bit)[i] && i != id.0
                    implies exists|k: int| 0 <= k < self.free_indexes@.len() && self.free_indexes@[k].0 == i by {
                    let k = choose|k: int| 0 <= k < fi.len() && fi[k].0 == i;
                    assert(k != fi.len() - 1);
                    assert(self.free_indexes@[k] == fi[k]);
                }
            }
            bits_set(&mut self.check_bit, id.0, true);
            proof {
                assert(self@.alive =~= old(self)@.alive.insert(id.id()));
                assert(self@.free =~= old(self)@.free.drop_last());
            }
            return id;
        }
        let index = self.issued;
        if bits_len(&self.check_bit) <= index {
            bits_grow(&mut self.check_bit, GROW_SIZE, false);
        }
        bits_set(&mut self.check_bit, index, true);
        self.issued = index + 1;
        proof {
            assert(self@.alive =~= old(self)@.alive.insert(index as nat));
            assert forall|i: int| 0 <= i < self.issued && !bits_of(self.check_bit)[i]
                implies exists|k: int| 0 <= k < self.free_indexes@.len() && self.free_indexes@[k].0 == i by {
                assert(i != index);
            }
        }
        EntityId(index)
    }

    /// Marks a live id dead and pushes it on the free list. Releasing an id
    /// that is not alive is a caller error.
    pub fn remove_entity(&mut self, entity_id: EntityId)
        requires
            old(self).wf(),
            old(self)@.alive.contains(entity_id.id()),
        ensures
            final(self).wf(),
            final(self)@.issued == old(self)@.issued,
            final(self)@.alive == old(self)@.alive.remove(entity_id.id()),
            final(self)@.free == old(self)@.free.push(entity_id.id()),
            Self::free_list_ok(final(self)@),
    {
        proof {
            if entity_id.0 >= self.issued {
                assert(!bits_of(self.check_bit)[entity_id.0 as int]);
            }
        }
        bits_set(&mut self.check_bit, entity_id.0, false);
        self.free_indexes.push(entity_id);
        proof {
            assert(self@.alive =~= old(self)@.alive.remove(entity_id.id()));
            assert(self@.free =~= old(self)@.free.push(entity_id.id()));
            let fi = self.free_indexes@;
            assert forall|i: int| 0 <= i < self.issued && !bits_of(self.check_bit)[i]
                implies exists|k: int| 0 <= k < fi.len() && fi[k].0 == i by {
                if i == entity_id.0 {
                    assert(fi[fi.len() - 1].0 == i);
                } else {
                    let ofi = old(self).free_indexes@;
                    let k = choose|k: int| 0 <= k < ofi.len() && ofi[k].0 == i;
                    assert(fi[k] == ofi[k]);
                }
            }
            self.lemma_free_list();
        }
    }

    /// How many ids were ever issued.
    pub fn issued(&self) -> (r: usize)
        ensures
            r == self@.issued,
    {
        self.issued
    }

    pub fn is_entity_alive(&self, id: EntityId) -> (r: bool)
        ensures
            r == self@.alive.contains(id.id()),
    {
        match bits_get(&self.check_bit, id.0) {
            Some(b) => b,
            None => false,
        }
    }

    /// A point-in-time copy of the liveness set.
    pub fn get_alive_check(&self) -> (r: AliveSnapshot)
        ensures
            r@ == self@.alive,
    {
        AliveSnapshot { bits: bits_clone(&self.check_bit) }
    }
}

/// A copy of the liveness set taken at one moment.
pub struct AliveSnapshot {
    bits: BitVec,
}

impl View for AliveSnapshot {
    type V = Set<nat>;

    closed spec fn view(&self) -> Set<nat> {
        Set::new(|i: nat| i < bits_of(self.bits).len() && bits_of(self.bits)[i as int])
    }
}

impl AliveSnapshot {
    pub fn get(&self, i: usize) -> (r: bool)
        ensures
            r == self@.contains(i as nat),
    {
        match bits_get(&self.bits, i) {
            Some(b) => b,
            None => false,
        }
    }
}

} // verus!
