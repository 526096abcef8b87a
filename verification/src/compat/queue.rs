//! Bounded single-producer/single-consumer ring queue.

use vstd::prelude::*;

verus! {

/// Number of slots of a queue made by [`SimpleQueue::new`].
pub const QUEUE_SIZE: usize = 10;

/// A fixed-capacity circular buffer of typed slots.
///
/// One slot always stays unused, so that equal indices mean "empty": a queue
/// over `n + 1` slots holds at most `n` items.
pub struct SimpleQueue<T> {
    data: Vec<Option<T>>,
    read_index: usize,
    write_index: usize,
}

/// Position `offset` slots after `start` in a ring of `slots` slots.
pub open spec fn ring_index(start: int, offset: int, slots: int) -> int {
    if start + offset < slots {
        start + offset
    } else {
        start + offset - slots
    }
}

/// Number of slots from `read` up to `write`, going round the ring.
pub open spec fn ring_distance(read: int, write: int, slots: int) -> int {
    if write >= read {
        write - read
    } else {
        write + slots - read
    }
}

impl<T> SimpleQueue<T> {
    /// The representation invariant: both indices are in range and every
    /// slot between them holds an item.
    pub closed spec fn wf(&self) -> bool {
        &&& 0 < self.data.len() < usize::MAX
        &&& self.read_index < self.data.len()
        &&& self.write_index < self.data.len()
        &&& forall|k: int|
            0 <= k < ring_distance(
                self.read_index as int,
                self.write_index as int,
                self.data.len() as int,
            ) ==> (#[trigger] self.data[ring_index(
                self.read_index as int,
                k,
                self.data.len() as int,
            )]) is Some
    }

    /// The pending items, oldest first.
    pub closed spec fn view(&self) -> Seq<T> {
        Seq::new(
            ring_distance(
                self.read_index as int,
                self.write_index as int,
                self.data.len() as int,
            ) as nat,
            |k: int|
                self.data[ring_index(self.read_index as int, k, self.data.len() as int)].unwrap(),
        )
    }

    /// The largest number of items the queue can hold.
    pub closed spec fn capacity(&self) -> nat {
        (self.data.len() - 1) as nat
    }

    /// A queue over `capacity + 1` slots, which holds up to `capacity` items.
    pub fn with_capacity(capacity: usize) -> (q: Self)
        requires
            capacity < usize::MAX - 1,
        ensures
            q.wf(),
            q@ == Seq::<T>::empty(),
            q.capacity() == capacity,
    {
        let mut data: Vec<Option<T>> = Vec::new();
        let mut i: usize = 0;
        while i <= capacity
            invariant
                i <= capacity + 1,
                capacity < usize::MAX - 1,
                data.len() == i,
            decreases capacity + 1 - i,
        {
            data.push(None);
            i = i + 1;
        }
        SimpleQueue { data, read_index: 0, write_index: 0 }
    }

    /// A queue over [`QUEUE_SIZE`] slots.
    pub fn new() -> (q: Self)
        ensures
            q.wf(),
            q@ == Seq::<T>::empty(),
            q.capacity() == QUEUE_SIZE - 1,
    {
        Self::with_capacity(QUEUE_SIZE - 1)
    }

    /// Number of pending items.
    pub fn len(&self) -> (n: usize)
        requires
            self.wf(),
        ensures
            n == self@.len(),
            n <= self.capacity(),
    {
        if self.write_index >= self.read_index {
            self.write_index - self.read_index
        } else {
            self.write_index + (self.data.len() - self.read_index)
        }
    }

    /// Whether nothing is pending.
    pub fn is_empty(&self) -> (b: bool)
        requires
            self.wf(),
        ensures
            b == (self@.len() == 0),
    {
        self.read_index == self.write_index
    }

    /// Whether the queue holds as many items as it can.
    pub fn is_full(&self) -> (b: bool)
        requires
            self.wf(),
        ensures
            b == (self@.len() == self.capacity()),
            self@.len() <= self.capacity(),
    {
        let mut next_write = self.write_index + 1;
        if next_write == self.data.len() {
            next_write = 0;
        }
        next_write == self.read_index
    }

    /// Appends `e`. A full queue is a fatal overflow, so callers rule it out.
    pub fn enqueue(&mut self, e: T)
        requires
            old(self).wf(),
            old(self)@.len() < old(self).capacity(),
        ensures
            final(self).wf(),
            final(self).capacity() == old(self).capacity(),
            final(self)@ == old(self)@.push(e),
            final(self)@ == QueueOp::Enqueue(e).apply(old(self)@),
    {
        let ghost before = *self;
        self.data.set(self.write_index, Some(e));
        let mut next_write = self.write_index + 1;
        if next_write == self.data.len() {
            next_write = 0;
        }
        self.write_index = next_write;
        proof {
            let n = self.data.len() as int;
            let r = self.read_index as int;
            let w = before.write_index as int;
            assert forall|k: int| 0 <= k < ring_distance(r, next_write as int, n) implies (
            #[trigger] self.data[ring_index(r, k, n)]) is Some by {
                if k < ring_distance(r, w, n) {
                    assert(before.data[ring_index(r, k, n)] is Some);
                }
            }
            assert(self@ =~= before@.push(e));
        }
    }

    /// Appends `e` unless the queue is full. Returns whether the item was
    /// taken; an item that finds the queue full is dropped.
    pub fn try_enqueue(&mut self, e: T) -> (accepted: bool)
        requires
            old(self).wf(),
        ensures
            final(self).wf(),
            final(self).capacity() == old(self).capacity(),
            accepted == (old(self)@.len() < old(self).capacity()),
            accepted ==> final(self)@ == old(self)@.push(e),
            !accepted ==> final(self)@ == old(self)@,
    {
        if self.is_full() {
            false
        } else {
            self.enqueue(e);
            true
        }
    }

    /// The oldest item, or `None` when nothing is pending.
    pub fn front(&self) -> (r: Option<&T>)
        requires
            self.wf(),
        ensures
            self@.len() == 0 ==> r is None,
            self@.len() > 0 ==> r == Some(&self@[0]),
    {
        if self.write_index == self.read_index {
            None
        } else {
            assert(self.data[ring_index(
                self.read_index as int,
                0,
                self.data.len() as int,
            )] is Some);
            self.data[self.read_index].as_ref()
        }
    }

    /// Removes and returns the oldest item, or `None` when nothing is pending.
    pub fn dequeue(&mut self) -> (r: Option<T>)
        requires
            old(self).wf(),
        ensures
            final(self).wf(),
            final(self).capacity() == old(self).capacity(),
            old(self)@.len() == 0 ==> r is None && final(self)@ == old(self)@,
            old(self)@.len() > 0 ==> r == Some(old(self)@[0]) && final(self)@ == old(self)@.skip(1),
            r == QueueOp::<T>::Dequeue.yields(old(self)@),
            final(self)@ == QueueOp::<T>::Dequeue.apply(old(self)@),
    {
        if self.write_index == self.read_index {
            None
        } else {
            let ghost before = *self;
            let mut result: Option<T> = None;
            std::mem::swap(&mut result, &mut self.data[self.read_index]);
            let mut next_read = self.read_index + 1;
            if next_read == self.data.len() {
                next_read = 0;
            }
            self.read_index = next_read;
            proof {
                let n = self.data.len() as int;
                let r = before.read_index as int;
                let w = self.write_index as int;
                assert(before.data[ring_index(r, 0, n)] is Some);
                assert forall|k: int| 0 <= k < ring_distance(next_read as int, w, n) implies (
                #[trigger] self.data[ring_index(next_read as int, k, n)]) is Some by {
                    assert(before.data[ring_index(r, k + 1, n)] is Some);
                }
                assert(self@ =~= before@.skip(1));
            }
            result
        }
    }
}

/// One operation on a queue, as it appears in a history of operations.
pub enum QueueOp<T> {
    Enqueue(T),
    Dequeue,
}

impl<T> QueueOp<T> {
    /// The pending items after this operation, given those before it:
    /// what `enqueue` and `dequeue` promise of the queue's view.
    pub open spec fn apply(self, pending: Seq<T>) -> Seq<T> {
        match self {
            QueueOp::Enqueue(e) => pending.push(e),
            QueueOp::Dequeue => if pending.len() == 0 {
                pending
            } else {
                pending.skip(1)
            },
        }
    }

    /// What this operation hands back: `dequeue` yields the oldest pending
    /// item if there is one, `enqueue` yields nothing.
    pub open spec fn yields(self, pending: Seq<T>) -> Option<T> {
        match self {
            QueueOp::Enqueue(_) => None,
            QueueOp::Dequeue => if pending.len() == 0 {
                None
            } else {
                Some(pending[0])
            },
        }
    }
}

/// The pending items of a queue that started empty and went through `ops`.
pub open spec fn pending_after<T>(ops: Seq<QueueOp<T>>) -> Seq<T>
    decreases ops.len(),
{
    if ops.len() == 0 {
        Seq::empty()
    } else {
        ops.last().apply(pending_after(ops.drop_last()))
    }
}

/// Every item that `ops` enqueued, in the order of the calls.
pub open spec fn enqueued<T>(ops: Seq<QueueOp<T>>) -> Seq<T>
    decreases ops.len(),
{
    if ops.len() == 0 {
        Seq::empty()
    } else {
        match ops.last() {
            QueueOp::Enqueue(e) => enqueued(ops.drop_last()).push(e),
            QueueOp::Dequeue => enqueued(ops.drop_last()),
        }
    }
}

/// Every item that a `dequeue` in `ops` returned, in the order of the calls.
pub open spec fn dequeued<T>(ops: Seq<QueueOp<T>>) -> Seq<T>
    decreases ops.len(),
{
    if ops.len() == 0 {
        Seq::empty()
    } else {
        match ops.last().yields(pending_after(ops.drop_last())) {
            Some(item) => dequeued(ops.drop_last()).push(item),
            None => dequeued(ops.drop_last()),
        }
    }
}

/// No `enqueue` in `ops` met a queue that already held `capacity` items,
/// that is, the history never ran into the overflow policy.
pub open spec fn within_capacity<T>(ops: Seq<QueueOp<T>>, capacity: nat) -> bool
    decreases ops.len(),
{
    ops.len() == 0 || {
        &&& within_capacity(ops.drop_last(), capacity)
        &&& ops.last() is Enqueue ==> pending_after(ops.drop_last()).len() < capacity
    }
}

/// A history that stays clear of overflow does so at every earlier point.
pub proof fn lemma_within_capacity_prefix<T>(ops: Seq<QueueOp<T>>, capacity: nat, k: int)
    requires
        within_capacity(ops, capacity),
        0 <= k <= ops.len(),
    ensures
        within_capacity(ops.take(k), capacity),
    decreases ops.len(),
{
    if k == ops.len() {
        assert(ops.take(k) =~= ops);
    } else {
        lemma_within_capacity_prefix(ops.drop_last(), capacity, k);
        assert(ops.drop_last().take(k) =~= ops.take(k));
    }
}

/// First in, first out: on a queue of capacity `capacity` that starts
/// empty, whatever the history of enqueues and dequeues, the items dequeued
/// followed by the items still pending are exactly the items enqueued, in
/// the order in which they were enqueued. The number of pending items is the
/// number of enqueues less the number of items dequeued, and it never
/// exceeds the capacity, neither at the end nor after any prefix of the
/// history.
pub proof fn lemma_fifo<T>(ops: Seq<QueueOp<T>>, capacity: nat)
    requires
        within_capacity(ops, capacity),
    ensures
        enqueued(ops) == dequeued(ops) + pending_after(ops),
        pending_after(ops).len() == enqueued(ops).len() - dequeued(ops).len(),
        pending_after(ops).len() <= capacity,
        forall|k: int|
            0 <= k <= ops.len() ==> {
                let prefix = #[trigger] ops.take(k);
                &&& enqueued(prefix) == dequeued(prefix) + pending_after(prefix)
                &&& pending_after(prefix).len() == enqueued(prefix).len() - dequeued(prefix).len()
                &&& pending_after(prefix).len() <= capacity
            },
    decreases ops.len(),
{
    lemma_fifo_end(ops, capacity);
    assert forall|k: int| 0 <= k <= ops.len() implies {
        let prefix = #[trigger] ops.take(k);
        &&& enqueued(prefix) == dequeued(prefix) + pending_after(prefix)
        &&& pending_after(prefix).len() == enqueued(prefix).len() - dequeued(prefix).len()
        &&& pending_after(prefix).len() <= capacity
    } by {
        lemma_within_capacity_prefix(ops, capacity, k);
        lemma_fifo_end(ops.take(k), capacity);
    }
}

proof fn lemma_fifo_end<T>(ops: Seq<QueueOp<T>>, capacity: nat)
    requires
        within_capacity(ops, capacity),
    ensures
        enqueued(ops) == dequeued(ops) + pending_after(ops),
        pending_after(ops).len() == enqueued(ops).len() - dequeued(ops).len(),
        pending_after(ops).len() <= capacity,
    decreases ops.len(),
{
    if ops.len() > 0 {
        let rest = ops.drop_last();
        lemma_fifo_end(rest, capacity);
        let before = pending_after(rest);
        match ops.last() {
            QueueOp::Enqueue(e) => {
                assert(enqueued(ops) =~= dequeued(ops) + pending_after(ops));
            },
            QueueOp::Dequeue => {
                if before.len() > 0 {
                    assert(dequeued(rest).push(before[0]) + before.skip(1) =~= dequeued(rest)
                        + before);
                }
            },
        }
    } else {
        assert(enqueued(ops) =~= dequeued(ops) + pending_after(ops));
    }
}

} // verus!
