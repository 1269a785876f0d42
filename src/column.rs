//! One sparse column: an optional value per entity id.
use vstd::prelude::*;

verus! {

/// A growable indexed array `id -> optional component`.
pub struct Column<T> {
    slots: Vec<Option<T>>,
}

/// What a column holds at `i`: the slot, or nothing past its end.
pub open spec fn slot_at<T>(s: Seq<Option<T>>, i: int) -> Option<T> {
    if 0 <= i < s.len() {
        s[i]
    } else {
        None
    }
}

impl<T> View for Column<T> {
    type V = Seq<Option<T>>;

    closed spec fn view(&self) -> Seq<Option<T>> {
        self.slots@
    }
}

impl<T> Column<T> {
    pub open spec fn at(&self, i: int) -> Option<T> {
        slot_at(self@, i)
    }

    pub fn new() -> (r: Self)
        ensures
            r@ == Seq::<Option<T>>::empty(),
    {
        Column { slots: Vec::new() }
    }

    pub fn len(&self) -> (r: usize)
        ensures
            r == self@.len(),
    {
        self.slots.len()
    }

    pub fn get(&self, i: usize) -> (r: Option<&T>)
        ensures
            r == match self.at(i as int) {
                Some(v) => Some(&v),
                None => None::<&T>,
            },
    {
        if i < self.slots.len() {
            match &self.slots[i] {
                Some(v) => Some(v),
                None => None,
            }
        } else {
            None
        }
    }

    pub fn get_mut(&mut self, i: usize) -> (r: Option<&mut T>)
        ensures
            old(self).at(i as int) is None ==> r is None && final(self)@ == old(self)@,
            old(self).at(i as int) is Some ==> r is Some && *r->0 == old(self).at(i as int)->0
                && final(self)@ == old(self)@.update(i as int, Some(*final(r->0))),
    {
        if i < self.slots.len() {
            match &mut self.slots[i] {
                Some(v) => Some(v),
                None => None,
            }
        } else {
            None
        }
    }

    /// Stores `value` at `i`, growing the column with empty slots as needed.
    pub fn set(&mut self, i: usize, value: T)
        requires
            i < usize::MAX,
        ensures
            final(self)@.len() == if old(self)@.len() > i { old(self)@.len() as int } else { i + 1 },
            forall|j: int| #![trigger final(self).at(j)] j != i ==> final(self).at(j) == old(self).at(j),
            final(self).at(i as int) == Some(value),
    {
        while self.slots.len() <= i
            invariant
                i < usize::MAX,
                old(self)@.len() <= self.slots@.len() <= if old(self)@.len() > i { old(self)@.len() as int } else { i + 1 },
                self.slots@.len() > old(self)@.len() ==> self.slots@.len() <= i + 1,
                forall|j: int| #![trigger slot_at(self.slots@, j)] j != i ==> slot_at(self.slots@, j) == old(self).at(j),
                forall|j: int| old(self)@.len() <= j < self.slots@.len() ==> self.slots@[j] is None,
            decreases i + 1 - self.slots@.len(),
        {
            let ghost before = self.slots@;
            self.slots.push(None);
            assert forall|j: int| j != i implies #[trigger] slot_at(self.slots@, j) == old(self).at(j) by {
                if 0 <= j < before.len() {
                    assert(slot_at(self.slots@, j) == slot_at(before, j));
                }
            }
        }
        let ghost before = self.slots@;
        self.slots.set(i, Some(value));
        assert forall|j: int| j != i implies #[trigger] self.at(j) == old(self).at(j) by {
            assert(slot_at(self.slots@, j) == slot_at(before, j));
        }
    }

    /// Swaps `value` into slot `i` (which must exist) and returns the old slot.
    pub fn replace(&mut self, i: usize, value: Option<T>) -> (r: Option<T>)
        requires
            i < old(self)@.len(),
        ensures
            r == old(self).at(i as int),
            final(self)@ == old(self)@.update(i as int, value),
    {
        let mut v = value;
        self.slots.set_and_swap(i, &mut v);
        v
    }

    /// Empties slot `i` when it exists.
    pub fn reset(&mut self, i: usize)
        ensures
            final(self)@.len() == old(self)@.len(),
            forall|j: int| #![trigger final(self).at(j)] j != i ==> final(self).at(j) == old(self).at(j),
            final(self).at(i as int) is None,
    {
        if i < self.slots.len() {
            self.slots.set(i, None);
        }
    }
}

} // verus!
