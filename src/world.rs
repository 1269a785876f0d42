//! The table of component columns, one per component kind.
use vstd::prelude::*;
use crate::column::{Column, slot_at};
use crate::entity::EntityId;

verus! {

/// Component columns indexed by a small stable number per component kind.
/// A column is created on the first insertion of its kind.
pub struct World<C> {
    components: Vec<Option<Column<C>>>,
}

impl<C> World<C> {
    /// The column of `kind`, if it was ever created.
    pub closed spec fn column(&self, kind: int) -> Option<Seq<Option<C>>> {
        if 0 <= kind < self.components@.len() {
            match self.components@[kind] {
                Some(c) => Some(c@),
                None => None,
            }
        } else {
            None
        }
    }

    pub open spec fn has_kind(&self, kind: int) -> bool {
        self.column(kind) is Some
    }

    /// The component of `kind` stored for id `i`, stale or not.
    pub open spec fn comp(&self, kind: int, i: int) -> Option<C> {
        match self.column(kind) {
            Some(s) => slot_at(s, i),
            None => None,
        }
    }

    /// Whether the column of `kind` exists and reaches slot `i`.
    pub open spec fn has_slot(&self, kind: int, i: int) -> bool {
        self.column(kind) matches Some(s) && 0 <= i < s.len()
    }

    /// A component is stored only in a slot that its column reaches, and a
    /// slot exists only in a column that exists.
    pub proof fn lemma_slots(&self, kind: int, i: int)
        ensures
            self.comp(kind, i) is Some ==> self.has_slot(kind, i),
            self.has_slot(kind, i) ==> self.has_kind(kind),
            !self.has_kind(kind) ==> self.comp(kind, i) is None,
    {
    }

    pub fn new() -> (r: Self)
        ensures
            forall|k: int| !r.has_kind(k),
            forall|k: int, i: int| !r.has_slot(k, i),
    {
        World { components: Vec::new() }
    }

    /// Creates the (empty) column of `kind` unless it exists.
    pub fn register_component(&mut self, kind: usize)
        ensures
            final(self).has_kind(kind as int),
            forall|k: int| #![trigger final(self).column(k)] k != kind ==> final(self).column(k) == old(self).column(k),
            old(self).has_kind(kind as int) ==> final(self).column(kind as int) == old(self).column(kind as int),
            !old(self).has_kind(kind as int) ==> final(self).column(kind as int) == Some(Seq::<Option<C>>::empty()),
            forall|k: int, i: int| #![trigger final(self).has_slot(k, i)] final(self).has_slot(k, i) == old(self).has_slot(k, i),
    {
        let ghost before = self.components@;
        while self.components.len() <= kind
            invariant
                forall|k: int| 0 <= k < before.len() ==> self.components@[k] == before[k],
                forall|k: int| before.len() <= k < self.components@.len() ==> self.components@[k] is None,
                before.len() <= self.components@.len(),
                self.components@.len() <= if before.len() > kind { before.len() as int } else { kind + 1 },
            decreases kind + 1 - self.components@.len(),
        {
            self.components.push(None);
        }
        assert forall|k: int| #![trigger self.column(k)] k != kind implies self.column(k) == old(self).column(k) by {}
        if self.components[kind].is_none() {
            let ghost mid = self.components@;
            self.components.set(kind, Some(Column::new()));
            assert forall|k: int| #![trigger self.column(k)] k != kind implies self.column(k) == old(self).column(k) by {
                if 0 <= k < mid.len() {
                    assert(self.components@[k] == mid[k]);
                }
            }
        }
    }

    pub fn is_component_exist(&self, kind: usize) -> (r: bool)
        ensures
            r == self.has_kind(kind as int),
    {
        kind < self.components.len() && self.components[kind].is_some()
    }

    /// Stores `component` as the `kind` component of `entity`, creating the
    /// column when absent and overwriting any previous value.
    pub fn add_component(&mut self, entity: EntityId, kind: usize, component: C)
        requires
            entity.0 < usize::MAX,
        ensures
            final(self).comp(kind as int, entity.0 as int) == Some(component),
            final(self).has_kind(kind as int),
            forall|k: int, i: int| #![trigger final(self).comp(k, i)] (k != kind || i != entity.0) ==> final(self).comp(k, i) == old(self).comp(k, i),
            forall|k: int| #![trigger final(self).has_kind(k)] k != kind ==> final(self).has_kind(k) == old(self).has_kind(k),
            forall|k: int, i: int| #![trigger final(self).has_slot(k, i)] final(self).has_slot(k, i)
                == (old(self).has_slot(k, i) || (k == kind && 0 <= i <= entity.0)),
    {
        self.register_component(kind);
        let ghost mid = *self;
        let mut col = Column::new();
        if let Some(c) = self.components[kind].take() {
            col = c;
        }
        col.set(entity.0, component);
        self.components.set(kind, Some(col));
        assert forall|k: int, i: int| #![trigger self.comp(k, i)] (k != kind || i != entity.0) implies self.comp(k, i) == old(self).comp(k, i) by {
            if k != kind {
                assert(self.column(k) == mid.column(k));
            } else {
                assert(col.at(i) == slot_at(mid.column(k)->0, i));
            }
        }
        assert forall|k: int| #![trigger self.has_kind(k)] k != kind implies self.has_kind(k) == old(self).has_kind(k) by {
            assert(self.column(k) == mid.column(k));
        }
        assert forall|k: int, i: int| #![trigger self.has_slot(k, i)] self.has_slot(k, i)
            == (old(self).has_slot(k, i) || (k == kind && 0 <= i <= entity.0)) by {
            assert(mid.has_slot(k, i) == old(self).has_slot(k, i));
            if k != kind {
                assert(self.column(k) == mid.column(k));
            }
        }
    }

    /// The `kind` component of `entity`, if any.
    pub fn get_component(&self, entity: EntityId, kind: usize) -> (r: Option<&C>)
        ensures
            r == match self.comp(kind as int, entity.0 as int) {
                Some(v) => Some(&v),
                None => None::<&C>,
            },
    {
        if kind < self.components.len() {
            match &self.components[kind] {
                Some(col) => col.get(entity.0),
                None => None,
            }
        } else {
            None
        }
    }

    /// Exclusive access to the `kind` component of `entity`, if any.
    pub fn get_component_mut(&mut self, entity: EntityId, kind: usize) -> (r: Option<&mut C>)
        ensures
            forall|k: int, i: int| #![trigger final(self).comp(k, i)] (k != kind || i != entity.0) ==> final(self).comp(k, i) == old(self).comp(k, i),
            forall|k: int| #![trigger final(self).has_kind(k)] final(self).has_kind(k) == old(self).has_kind(k),
            forall|k: int, i: int| #![trigger final(self).has_slot(k, i)] final(self).has_slot(k, i) == old(self).has_slot(k, i),
            old(self).comp(kind as int, entity.0 as int) is None ==> r is None
                && final(self).comp(kind as int, entity.0 as int) is None,
            old(self).comp(kind as int, entity.0 as int) is Some ==> r is Some
                && *r->0 == old(self).comp(kind as int, entity.0 as int)->0
                && final(self).comp(kind as int, entity.0 as int) == Some(*final(r->0)),
    {
        if kind < self.components.len() {
            match &mut self.components[kind] {
                Some(col) => col.get_mut(entity.0),
                None => None,
            }
        } else {
            None
        }
    }

    /// The column of `kind`, if it exists.
    pub fn borrow_component_vec(&self, kind: usize) -> (r: Option<&Column<C>>)
        ensures
            match r {
                Some(c) => self.column(kind as int) == Some(c@),
                None => !self.has_kind(kind as int),
            },
    {
        if kind < self.components.len() {
            match &self.components[kind] {
                Some(col) => Some(col),
                None => None,
            }
        } else {
            None
        }
    }

    /// Empties slot `entity` in every column.
    pub fn remove_entity(&mut self, entity: EntityId)
        ensures
            forall|k: int| #![trigger final(self).column(k)] final(self).has_kind(k) == old(self).has_kind(k),
            forall|k: int| #![trigger final(self).comp(k, entity.0 as int)] final(self).comp(k, entity.0 as int) is None,
            forall|k: int, i: int| #![trigger final(self).comp(k, i)] i != entity.0 ==> final(self).comp(k, i) == old(self).comp(k, i),
            forall|k: int, i: int| #![trigger final(self).has_slot(k, i)] final(self).has_slot(k, i) == old(self).has_slot(k, i),
    {
        let n = self.components.len();
        let mut idx: usize = 0;
        while idx < n
            invariant
                n == self.components@.len(),
                idx <= n,
                n == old(self).components@.len(),
                forall|k: int| #![trigger self.column(k)] self.has_kind(k) == old(self).has_kind(k),
                forall|k: int| 0 <= k < idx ==> #[trigger] self.comp(k, entity.0 as int) is None,
                forall|k: int, i: int| #![trigger self.comp(k, i)] (i != entity.0 || k >= idx) ==> self.comp(k, i) == old(self).comp(k, i),
                forall|k: int, i: int| #![trigger self.has_slot(k, i)] self.has_slot(k, i) == old(self).has_slot(k, i),
            decreases n - idx,
        {
            let ghost mid = *self;
            match &mut self.components[idx] {
                Some(col) => {
                    col.reset(entity.0);
                },
                None => {},
            }
            assert forall|i: int| #![trigger self.comp(idx as int, i)]
                i != entity.0 implies self.comp(idx as int, i) == mid.comp(idx as int, i) by {
                if let Some(c) = self.components@[idx as int] {
                    let c0 = mid.components@[idx as int]->0;
                    assert(c.at(i) == c0.at(i));
                }
            }
            assert(self.comp(idx as int, entity.0 as int) is None) by {
                if let Some(c) = self.components@[idx as int] {
                    assert(c.at(entity.0 as int) is None);
                }
            }
            assert forall|k: int| #![trigger self.column(k)] k != idx implies self.column(k) == mid.column(k) by {
                if 0 <= k < n {
                    assert(self.components@[k] == mid.components@[k]);
                }
            }
            assert forall|k: int| 0 <= k <= idx implies #[trigger] self.comp(k, entity.0 as int) is None by {
                if k < idx {
                    assert(mid.comp(k, entity.0 as int) is None);
                    assert(self.column(k) == mid.column(k));
                }
            }
            assert forall|k: int, i: int| #![trigger self.has_slot(k, i)] self.has_slot(k, i) == old(self).has_slot(k, i) by {
                assert(mid.has_slot(k, i) == old(self).has_slot(k, i));
                if k != idx {
                    assert(self.column(k) == mid.column(k));
                } else if let Some(c) = self.components@[idx as int] {
                    assert(c@.len() == mid.components@[idx as int]->0@.len());
                }
            }
            assert forall|k: int, i: int| #![trigger self.comp(k, i)]
                (i != entity.0 || k >= idx + 1) implies self.comp(k, i) == old(self).comp(k, i) by {
                assert(mid.comp(k, i) == old(self).comp(k, i));
                if k != idx {
                    assert(self.column(k) == mid.column(k));
                }
            }
            idx += 1;
        }
    }

    /// Swaps `value` into the `kind` slot of `entity`, which must exist, and
    /// returns what it held.
    pub fn replace_component(&mut self, entity: EntityId, kind: usize, value: Option<C>) -> (r: Option<C>)
        requires
            old(self).has_slot(kind as int, entity.0 as int),
        ensures
            r == old(self).comp(kind as int, entity.0 as int),
            final(self).comp(kind as int, entity.0 as int) == value,
            forall|k: int, i: int| #![trigger final(self).comp(k, i)] (k != kind || i != entity.0) ==> final(self).comp(k, i) == old(self).comp(k, i),
            forall|k: int, i: int| #![trigger final(self).has_slot(k, i)] final(self).has_slot(k, i) == old(self).has_slot(k, i),
            forall|k: int| #![trigger final(self).has_kind(k)] final(self).has_kind(k) == old(self).has_kind(k),
    {
        let ghost before = self.components@;
        match &mut self.components[kind] {
            Some(col) => {
                let ghost c0 = *col;
                let r = col.replace(entity.0, value);
                proof {
                    assert forall|i: int| i != entity.0 implies #[trigger] slot_at(col@, i) == slot_at(c0@, i) by {}
                }
                assert forall|k: int| #![trigger self.column(k)] k != kind implies self.column(k) == old(self).column(k) by {
                    if 0 <= k < before.len() {
                        assert(self.components@[k] == before[k]);
                    }
                }
                r
            },
            None => None,
        }
    }
}

} // verus!
