//! Typed event queues: one process-wide queue per event type, and a table of
//! per-entity queues.
use vstd::prelude::*;
use crate::entity::EntityId;

verus! {

/// A receiver of events of type `E`; `after_event` states what one delivery
/// does to it.
pub trait Listener<E>: Sized {
    spec fn after_event(self, event: E) -> Self;

    fn on_event(&mut self, event: E)
        ensures
            *final(self) == old(self).after_event(event),
    ;
}

/// The listener after receiving `events` in order.
pub open spec fn after_events<E, L: Listener<E>>(l: L, events: Seq<E>) -> L
    decreases events.len(),
{
    if events.len() == 0 {
        l
    } else {
        after_events(l, events.drop_last()).after_event(events.last())
    }
}

/// A FIFO queue of events of one type.
pub struct EventSystem<E> {
    events: Vec<E>,
}

impl<E> View for EventSystem<E> {
    type V = Seq<E>;

    closed spec fn view(&self) -> Seq<E> {
        self.events@
    }
}

impl<E: Copy> EventSystem<E> {
    pub fn new() -> (r: Self)
        ensures
            r@ == Seq::<E>::empty(),
    {
        EventSystem { events: Vec::new() }
    }

    pub fn push_event(&mut self, ev: E)
        ensures
            final(self)@ == old(self)@.push(ev),
    {
        self.events.push(ev);
    }

    /// Delivers every queued event to `listener`, in push order. The queue
    /// is left as it is.
    pub fn process_event<L: Listener<E>>(&self, listener: &mut L)
        ensures
            *final(listener) == after_events(*old(listener), self@),
    {
        let n = self.events.len();
        let mut i: usize = 0;
        while i < n
            invariant
                n == self.events@.len(),
                i <= n,
                *listener == after_events(*old(listener), self.events@.take(i as int)),
            decreases n - i,
        {
            let ev = self.events[i];
            listener.on_event(ev);
            proof {
                assert(self.events@.take(i + 1).drop_last() =~= self.events@.take(i as int));
            }
            i += 1;
        }
        proof {
            assert(self.events@.take(n as int) =~= self.events@);
        }
    }

    /// A copy of the queued events, oldest first.
    pub fn get_events(&self) -> (r: Vec<E>)
        ensures
            r@ == self@,
    {
        let mut r: Vec<E> = Vec::new();
        let n = self.events.len();
        let mut i: usize = 0;
        while i < n
            invariant
                n == self.events@.len(),
                i <= n,
                r@ == self.events@.take(i as int),
            decreases n - i,
        {
            r.push(self.events[i]);
            proof {
                assert(self.events@.take(i + 1) =~= self.events@.take(i as int).push(self.events@[i as int]));
            }
            i += 1;
        }
        proof {
            assert(self.events@.take(n as int) =~= self.events@);
        }
        r
    }

    /// Removes and returns the queued events, oldest first.
    pub fn drain(&mut self) -> (r: Vec<E>)
        ensures
            r@ == old(self)@,
            final(self)@ == Seq::<E>::empty(),
    {
        let mut r: Vec<E> = Vec::new();
        std::mem::swap(&mut r, &mut self.events);
        r
    }

    pub fn clear_all(&mut self)
        ensures
            final(self)@ == Seq::<E>::empty(),
    {
        self.events.clear();
    }
}

/// Per-entity event queues: the queue of an entity holds only what was
/// pushed to that entity.
pub struct EventQueue<E> {
    queues: Vec<EventSystem<E>>,
}

impl<E> EventQueue<E> {
    /// The queue of entity `id`; empty when nothing was ever pushed to it.
    pub closed spec fn queue(&self, id: int) -> Seq<E> {
        if 0 <= id < self.queues@.len() {
            self.queues@[id]@
        } else {
            Seq::empty()
        }
    }
}

impl<E> EventQueue<E> {
    /// `post` is `pre` with `event` appended to the queue of `entity`.
    pub open spec fn pushed(pre: Self, post: Self, entity: EntityId, event: E) -> bool {
        &&& post.queue(entity.0 as int) == pre.queue(entity.0 as int).push(event)
        &&& forall|id: int| #![trigger post.queue(id)] id != entity.0 ==> post.queue(id) == pre.queue(id)
    }

    /// `post` is `pre` with the queue of `entity`, which was `out`, emptied.
    pub open spec fn flushed(pre: Self, post: Self, entity: EntityId, out: Seq<E>) -> bool {
        &&& out == pre.queue(entity.0 as int)
        &&& post.queue(entity.0 as int) == Seq::<E>::empty()
        &&& forall|id: int| #![trigger post.queue(id)] id != entity.0 ==> post.queue(id) == pre.queue(id)
    }
}

impl<E: Copy> EventQueue<E> {
    pub fn new() -> (r: Self)
        ensures
            forall|id: int| r.queue(id) == Seq::<E>::empty(),
    {
        EventQueue { queues: Vec::new() }
    }

    /// Appends `event` to the queue of `entity`.
    pub fn push(&mut self, entity: EntityId, event: E)
        requires
            entity.0 < usize::MAX,
        ensures
            Self::pushed(*old(self), *final(self), entity, event),
    {
        let target = entity.0;
        while self.queues.len() <= target
            invariant
                target < usize::MAX,
                forall|id: int| #![trigger self.queue(id)] self.queue(id) == old(self).queue(id),
            decreases target + 1 - self.queues@.len(),
        {
            let ghost before = *self;
            self.queues.push(EventSystem::new());
            assert forall|id: int| #![trigger self.queue(id)] self.queue(id) == before.queue(id) by {
                if 0 <= id < before.queues@.len() {
                    assert(self.queues@[id] == before.queues@[id]);
                }
            }
        }
        let ghost before = *self;
        self.queues[target].push_event(event);
        assert(self.queues@.len() == before.queues@.len());
        assert(self.queues@[target as int]@ == before.queues@[target as int]@.push(event));
        assert(before.queue(target as int) == old(self).queue(target as int));
        assert forall|id: int| #![trigger self.queue(id)] id != target implies self.queue(id) == before.queue(id) by {
            if 0 <= id < before.queues@.len() {
                assert(self.queues@[id] == before.queues@[id]);
            }
        }
    }

    /// Delivers the queued events of `entity` to `listener`, in push order;
    /// nothing is removed.
    pub fn dispatch<L: Listener<E>>(&self, entity: EntityId, listener: &mut L)
        ensures
            *final(listener) == after_events(*old(listener), self.queue(entity.0 as int)),
    {
        if entity.0 < self.queues.len() {
            self.queues[entity.0].process_event(listener);
        }
    }

    /// Removes and returns the queued events of `entity`, oldest first.
    pub fn flush(&mut self, entity: EntityId) -> (r: Vec<E>)
        ensures
            Self::flushed(*old(self), *final(self), entity, r@),
    {
        if entity.0 < self.queues.len() {
            let ghost before = *self;
            let r = self.queues[entity.0].drain();
            assert forall|id: int| #![trigger self.queue(id)] id != entity.0 implies self.queue(id) == before.queue(id) by {
                if 0 <= id < before.queues@.len() {
                    assert(self.queues@[id] == before.queues@[id]);
                }
            }
            r
        } else {
            Vec::new()
        }
    }

    /// Empties every entity's queue.
    pub fn clear_all(&mut self)
        ensures
            forall|id: int| #[trigger] final(self).queue(id) == Seq::<E>::empty(),
    {
        let n = self.queues.len();
        let mut i: usize = 0;
        while i < n
            invariant
                n == self.queues@.len(),
                i <= n,
                forall|id: int| 0 <= id < i ==> #[trigger] self.queue(id) == Seq::<E>::empty(),
            decreases n - i,
        {
            let ghost before = *self;
            self.queues[i].clear_all();
            assert(self.queues@.len() == n);
            assert forall|id: int| 0 <= id < i + 1 implies #[trigger] self.queue(id) == Seq::<E>::empty() by {
                if id < i {
                    assert(before.queue(id) == Seq::<E>::empty());
                    assert(self.queues@[id] == before.queues@[id]);
                } else {
                    assert(self.queues@[id]@ == Seq::<E>::empty());
                }
            }
            i += 1;
        }
    }
}

} // verus!
