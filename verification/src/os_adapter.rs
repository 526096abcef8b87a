//! The operating-system services that the radio's protocol stack asks for:
//! counting semaphores, one mutex and bounded message queues.
//!
//! A caller that has to wait polls: every function here makes one attempt,
//! or one bounded round of attempts, and reports how it went.

use vstd::prelude::*;
use crate::compat::bl602::{up_irq_restore, up_irq_save, InterruptFlag};
use crate::compat::queue::SimpleQueue;

verus! {

/// Number of slots of the semaphore table.
pub const MAX_SEMAPHORES: usize = 10;

/// Number of slots of the table of message queues.
pub const MAX_MESSAGE_QUEUES: usize = 2;

/// The largest number of bytes of one message.
pub const MESSAGE_SIZE: usize = 256;

/// Enters a critical section: disables interrupts and returns the level,
/// which says what the flag was and which [`bl_os_exit_critical`] takes.
pub fn bl_os_enter_critical(flag: &mut InterruptFlag) -> (level: u32)
    ensures
        !final(flag).enabled(),
        level == if old(flag).enabled() {
            1u32
        } else {
            0u32
        },
{
    up_irq_save(flag)
}

/// Leaves a critical section: puts the flag back to what it was when the
/// section was entered with the result `level`.
pub fn bl_os_exit_critical(flag: &mut InterruptFlag, level: u32)
    ensures
        final(flag).enabled() == (level == 1),
{
    up_irq_restore(flag, level);
}

/// The table of counting semaphores. A semaphore's id is its slot's index
/// plus one.
pub struct SemaphoreTable {
    counts: Vec<Option<u32>>,
}

/// Slot `i` is the first empty slot.
pub open spec fn is_first_free<T>(slots: Seq<Option<T>>, i: int) -> bool {
    &&& 0 <= i < slots.len()
    &&& slots[i] is None
    &&& forall|j: int| 0 <= j < i ==> (#[trigger] slots[j]) is Some
}

/// Some slot is empty.
pub open spec fn has_free<T>(slots: Seq<Option<T>>) -> bool {
    exists|i: int| 0 <= i < slots.len() && (#[trigger] slots[i]) is None
}

impl SemaphoreTable {
    /// The count of each semaphore, by slot.
    pub closed spec fn view(&self) -> Seq<Option<u32>> {
        self.counts@
    }

    /// The representation invariant: the table has all its slots.
    pub open spec fn wf(&self) -> bool {
        self@.len() == MAX_SEMAPHORES
    }

    /// `semphr` is the id of a slot of the table.
    pub open spec fn is_slot(semphr: usize) -> bool {
        0 < semphr <= MAX_SEMAPHORES
    }

    /// A table without semaphores.
    pub fn new() -> (table: Self)
        ensures
            table.wf(),
            forall|i: int| 0 <= i < MAX_SEMAPHORES ==> (#[trigger] table@[i]) is None,
    {
        let mut counts: Vec<Option<u32>> = Vec::new();
        let mut i: usize = 0;
        while i < MAX_SEMAPHORES
            invariant
                i <= MAX_SEMAPHORES,
                counts.len() == i,
                forall|k: int| 0 <= k < i ==> (#[trigger] counts[k]) is None,
            decreases MAX_SEMAPHORES - i,
        {
            counts.push(None);
            i = i + 1;
        }
        SemaphoreTable { counts }
    }

    /// The count of semaphore `semphr`; nothing for an empty slot.
    pub fn count(&self, semphr: usize) -> (count: Option<u32>)
        requires
            self.wf(),
            Self::is_slot(semphr),
        ensures
            count == self@[semphr - 1],
    {
        self.counts[semphr - 1]
    }

    /// Index of the first empty slot.
    pub fn find_free(&self) -> (found: Option<usize>)
        requires
            self.wf(),
        ensures
            match found {
                Some(i) => is_first_free(self@, i as int),
                None => !has_free(self@),
            },
    {
        let mut i: usize = 0;
        while i < self.counts.len()
            invariant
                i <= self.counts.len(),
                forall|j: int| 0 <= j < i ==> (#[trigger] self@[j]) is Some,
            decreases self.counts.len() - i,
        {
            if self.counts[i].is_none() {
                return Some(i);
            }
            i = i + 1;
        }
        None
    }

    /// Makes a semaphore with the count `init` in the first empty slot and
    /// returns its id. A full table is fatal, so callers rule it out.
    pub fn create(&mut self, init: u32) -> (semphr: usize)
        requires
            old(self).wf(),
            has_free(old(self)@),
        ensures
            final(self).wf(),
            is_first_free(old(self)@, semphr - 1),
            final(self)@ == old(self)@.update(semphr - 1, Some(init)),
    {
        match self.find_free() {
            Some(i) => {
                self.counts.set(i, Some(init));
                i + 1
            },
            None => {
                // No slot is empty: the precondition rules this out.
                0
            },
        }
    }

    /// Empties the slot of semaphore `semphr`.
    pub fn delete(&mut self, semphr: usize)
        requires
            old(self).wf(),
            Self::is_slot(semphr),
        ensures
            final(self).wf(),
            final(self)@ == old(self)@.update(semphr - 1, None),
    {
        self.counts.set(semphr - 1, None);
    }

    /// One attempt to take semaphore `semphr`: if its count is above zero,
    /// the count goes down by one and the result is one. If the count is
    /// zero, or the slot is empty, nothing changes and the result is zero.
    pub fn try_take(&mut self, semphr: usize) -> (taken: i32)
        requires
            old(self).wf(),
            Self::is_slot(semphr),
        ensures
            final(self).wf(),
            match old(self)@[semphr - 1] {
                Some(cnt) => if cnt > 0 {
                    taken == 1 && final(self)@ == old(self)@.update(
                        semphr - 1,
                        Some((cnt - 1) as u32),
                    )
                } else {
                    taken == 0 && final(self)@ == old(self)@
                },
                None => taken == 0 && final(self)@ == old(self)@,
            },
    {
        match self.counts[semphr - 1] {
            Some(cnt) => {
                if cnt > 0 {
                    self.counts.set(semphr - 1, Some(cnt - 1));
                    1
                } else {
                    0
                }
            },
            None => 0,
        }
    }

    /// One round of waiting for semaphore `semphr` without a give in
    /// between: as many attempts as [`take_attempts`] says, ending at the
    /// first that takes the semaphore. The result is one if an attempt took
    /// it and zero if none did. A caller that lets interrupts in between
    /// the attempts makes them one by one with [`SemaphoreTable::try_take`].
    pub fn take(&mut self, semphr: usize, tick: u32) -> (taken: i32)
        requires
            old(self).wf(),
            Self::is_slot(semphr),
        ensures
            final(self).wf(),
            match old(self)@[semphr - 1] {
                Some(cnt) => if cnt > 0 {
                    taken == 1 && final(self)@ == old(self)@.update(
                        semphr - 1,
                        Some((cnt - 1) as u32),
                    )
                } else {
                    taken == 0 && final(self)@ == old(self)@
                },
                None => taken == 0 && final(self)@ == old(self)@,
            },
    {
        let attempts = take_attempts(tick);
        let mut attempt: u32 = 0;
        while attempt < attempts
            invariant
                attempt <= attempts,
                self.wf(),
                Self::is_slot(semphr),
                self@ == old(self)@,
                attempt > 0 ==> !(old(self)@[semphr - 1] matches Some(cnt) && cnt > 0),
            decreases attempts - attempt,
        {
            let res = self.try_take(semphr);
            if res == 1 {
                return 1;
            }
            attempt = attempt + 1;
        }
        0
    }

    /// Gives semaphore `semphr`: its count goes up by one and the result is
    /// one. On an empty slot nothing changes and the result is zero.
    pub fn give(&mut self, semphr: usize) -> (given: i32)
        requires
            old(self).wf(),
            Self::is_slot(semphr),
            old(self)@[semphr - 1] matches Some(cnt) ==> cnt < u32::MAX,
        ensures
            final(self).wf(),
            match old(self)@[semphr - 1] {
                Some(cnt) => given == 1 && final(self)@ == old(self)@.update(
                    semphr - 1,
                    Some((cnt + 1) as u32),
                ),
                None => given == 0 && final(self)@ == old(self)@,
            },
    {
        match self.counts[semphr - 1] {
            Some(cnt) => {
                self.counts.set(semphr - 1, Some(cnt + 1));
                1
            },
            None => 0,
        }
    }
}

/// How many attempts one round of a wait of `tick` ticks makes: one for
/// each tick, and one where the wait is of zero ticks.
pub fn take_attempts(tick: u32) -> (attempts: u32)
    ensures
        attempts == if tick == 0 {
            1u32
        } else {
            tick
        },
{
    if tick == 0 {
        1
    } else {
        tick
    }
}

/// Whether a wait of `tick` ticks has no end: a wait of zero ticks goes on
/// until the semaphore is taken.
pub fn waits_forever(tick: u32) -> (forever: bool)
    ensures
        forever == (tick == 0),
{
    tick == 0
}

/// The one mutex of the system.
pub struct Mutex {
    holder: Option<usize>,
}

impl Mutex {
    /// The handle under which the mutex is held, if it is held.
    pub closed spec fn holder(&self) -> Option<usize> {
        self.holder
    }

    /// A mutex that nobody holds.
    pub fn new() -> (mutex: Mutex)
        ensures
            mutex.holder() is None,
    {
        Mutex { holder: None }
    }

    /// Whether somebody holds the mutex.
    pub fn is_locked(&self) -> (locked: bool)
        ensures
            locked == (self.holder() is Some),
    {
        self.holder.is_some()
    }

    /// One attempt to lock the mutex under the handle `mutex`: it succeeds
    /// if nobody holds the mutex.
    pub fn try_lock(&mut self, mutex: usize) -> (locked: bool)
        ensures
            locked == (old(self).holder() is None),
            locked ==> final(self).holder() == Some(mutex),
            !locked ==> final(self).holder() == old(self).holder(),
    {
        if self.holder.is_some() {
            false
        } else {
            self.holder = Some(mutex);
            true
        }
    }

    /// Releases the mutex, whoever holds it. Returns zero.
    pub fn unlock(&mut self, mutex: usize) -> (status: i32)
        ensures
            status == 0,
            final(self).holder() is None,
    {
        self.holder = None;
        0
    }
}

/// One message of a message queue.
pub struct MqMessage {
    data: [u8; 256],
    len: usize,
}

impl MqMessage {
    /// The bytes of the message.
    pub closed spec fn view(&self) -> Seq<u8> {
        self.data@.take(self.len as int)
    }

    /// The representation invariant: the message fits its data area.
    pub closed spec fn wf(&self) -> bool {
        self.len <= MESSAGE_SIZE
    }

    /// A message of the first `len` bytes of `item`.
    pub fn new(item: &[u8], len: usize) -> (message: MqMessage)
        requires
            len <= item.len(),
            len <= MESSAGE_SIZE,
        ensures
            message.wf(),
            message@ == item@.take(len as int),
    {
        let mut data = [0u8; 256];
        let mut i: usize = 0;
        while i < len
            invariant
                i <= len,
                len <= item.len(),
                len <= MESSAGE_SIZE,
                data@.take(i as int) == item@.take(i as int),
            decreases len - i,
        {
            data[i] = item[i];
            i = i + 1;
            assert(data@.take(i as int) =~= item@.take(i as int));
        }
        MqMessage { data, len }
    }
}

/// The messages of a queue, each as its bytes.
pub open spec fn messages(queue: Seq<MqMessage>) -> Seq<Seq<u8>> {
    Seq::new(queue.len(), |i: int| queue[i]@)
}

/// A message queue.
pub struct MessageQueue {
    queue: SimpleQueue<MqMessage>,
}

impl MessageQueue {
    /// The representation invariant: that of the queue and of every message in
    /// it.
    pub closed spec fn wf(&self) -> bool {
        &&& self.queue.wf()
        &&& forall|i: int| 0 <= i < self.queue@.len() ==> (#[trigger] self.queue@[i]).wf()
    }

    /// The pending messages, oldest first.
    pub closed spec fn view(&self) -> Seq<Seq<u8>> {
        messages(self.queue@)
    }

    /// The largest number of messages that the queue holds.
    pub closed spec fn capacity(&self) -> nat {
        self.queue.capacity()
    }

    /// An empty queue of the default size.
    pub fn new() -> (queue: MessageQueue)
        ensures
            queue.wf(),
            queue@ == Seq::<Seq<u8>>::empty(),
            queue.capacity() == crate::compat::queue::QUEUE_SIZE - 1,
    {
        let queue = MessageQueue { queue: SimpleQueue::new() };
        assert(queue@ =~= Seq::<Seq<u8>>::empty());
        queue
    }

    /// Number of pending messages.
    pub fn len(&self) -> (len: usize)
        requires
            self.wf(),
        ensures
            len == self@.len(),
    {
        self.queue.len()
    }

    /// Number of bytes of the oldest message; nothing where none is
    /// pending.
    pub fn peek_len(&self) -> (bytes: Option<usize>)
        requires
            self.wf(),
        ensures
            bytes == if self@.len() > 0 {
                Some(self@[0].len() as usize)
            } else {
                None
            },
    {
        match self.queue.front() {
            Some(message) => Some(message.len),
            None => None,
        }
    }

    /// Sends the first `len` bytes of `item` as one message. The result is
    /// one if the queue took the message, and zero if it was full and the
    /// message is dropped. A message of more than [`MESSAGE_SIZE`] bytes is
    /// fatal, so callers rule it out.
    pub fn send(&mut self, item: &[u8], len: u32) -> (sent: i32)
        requires
            old(self).wf(),
            len <= item.len(),
            len <= MESSAGE_SIZE,
        ensures
            final(self).wf(),
            final(self).capacity() == old(self).capacity(),
            sent == if old(self)@.len() < old(self).capacity() {
                1i32
            } else {
                0i32
            },
            final(self)@ == if old(self)@.len() < old(self).capacity() {
                old(self)@.push(item@.take(len as int))
            } else {
                old(self)@
            },
    {
        let msg = MqMessage::new(item, len as usize);
        let ghost before = self.queue@;
        let success = self.queue.try_enqueue(msg);
        proof {
            if success {
                assert forall|i: int| 0 <= i < self.queue@.len() implies (
                #[trigger] self.queue@[i]).wf() by {
                    if i < before.len() {
                        assert(before[i].wf());
                    }
                }
                assert(self@ =~= old(self)@.push(item@.take(len as int)));
            }
        }
        if success {
            1
        } else {
            0
        }
    }

    /// Receives the oldest message and copies its bytes to the front of
    /// `item`, which has to have room for them. The result is one if a
    /// message with at least one byte was received. It is zero if no message
    /// was pending, and also after an empty message, which leaves the queue
    /// all the same.
    pub fn recv(&mut self, item: &mut Vec<u8>) -> (received: i32)
        requires
            old(self).wf(),
            old(self)@.len() > 0 ==> old(item).len() >= old(self)@[0].len(),
        ensures
            final(self).wf(),
            final(self).capacity() == old(self).capacity(),
            old(self)@.len() == 0 ==> received == 0 && final(self)@ == old(self)@ && final(item)@
                == old(item)@,
            old(self)@.len() > 0 ==> {
                &&& final(self)@ == old(self)@.skip(1)
                &&& final(item)@ == old(self)@[0] + old(item)@.skip(old(self)@[0].len() as int)
                &&& received == if old(self)@[0].len() > 0 {
                    1i32
                } else {
                    0i32
                }
            },
    {
        let ghost before = self.queue@;
        let res = self.queue.dequeue();
        match res {
            Some(message) => {
                proof {
                    assert(before[0].wf());
                    assert forall|i: int| 0 <= i < self.queue@.len() implies (
                    #[trigger] self.queue@[i]).wf() by {
                        assert(before[i + 1].wf());
                    }
                    assert(self@ =~= old(self)@.skip(1));
                }
                let mut i: usize = 0;
                while i < message.len
                    invariant
                        i <= message.len,
                        message.wf(),
                        item.len() == old(item).len(),
                        old(item).len() >= message.len,
                        item@ == message@.take(i as int) + old(item)@.skip(i as int),
                    decreases message.len - i,
                {
                    item.set(i, message.data[i]);
                    i = i + 1;
                    assert(item@ =~= message@.take(i as int) + old(item)@.skip(i as int));
                }
                assert(message@.take(message.len as int) =~= message@);
                if message.len > 0 {
                    1
                } else {
                    0
                }
            },
            None => 0,
        }
    }
}

/// The table of message queues. A queue's handle is its slot's index.
pub struct MessageQueues {
    queues: Vec<Option<MessageQueue>>,
}

impl MessageQueues {
    /// The table's slots.
    pub closed spec fn view(&self) -> Seq<Option<MessageQueue>> {
        self.queues@
    }

    /// The representation invariant: the table has all its slots, and every
    /// queue in it is well formed.
    pub open spec fn wf(&self) -> bool {
        &&& self@.len() == MAX_MESSAGE_QUEUES
        &&& forall|i: int|
            0 <= i < self@.len() && (#[trigger] self@[i]) is Some ==> self@[i].unwrap().wf()
    }

    /// A table without queues.
    pub fn new() -> (table: Self)
        ensures
            table.wf(),
            forall|i: int| 0 <= i < MAX_MESSAGE_QUEUES ==> (#[trigger] table@[i]) is None,
    {
        let mut queues: Vec<Option<MessageQueue>> = Vec::new();
        queues.push(None);
        queues.push(None);
        MessageQueues { queues }
    }

    /// Index of the first empty slot.
    pub fn find_free(&self) -> (found: Option<usize>)
        requires
            self.wf(),
        ensures
            match found {
                Some(i) => is_first_free(self@, i as int),
                None => !has_free(self@),
            },
    {
        let mut i: usize = 0;
        while i < self.queues.len()
            invariant
                i <= self.queues.len(),
                forall|j: int| 0 <= j < i ==> (#[trigger] self@[j]) is Some,
            decreases self.queues.len() - i,
        {
            if self.queues[i].is_none() {
                return Some(i);
            }
            i = i + 1;
        }
        None
    }

    /// Makes an empty queue in the first empty slot and returns its handle.
    /// The length and item size asked for are accepted and not used: every
    /// queue has the default size. A full table is fatal, so callers rule
    /// it out.
    pub fn create(&mut self, queue_len: u32, item_size: u32) -> (queue: usize)
        requires
            old(self).wf(),
            has_free(old(self)@),
        ensures
            final(self).wf(),
            is_first_free(old(self)@, queue as int),
            final(self)@.len() == old(self)@.len(),
            forall|i: int|
                0 <= i < old(self)@.len() && i != queue ==> #[trigger] final(self)@[i] == old(self)@[i],
            final(self)@[queue as int] matches Some(q) && q@ == Seq::<Seq<u8>>::empty()
                && q.capacity() == crate::compat::queue::QUEUE_SIZE - 1,
    {
        match self.find_free() {
            Some(i) => {
                self.queues.set(i, Some(MessageQueue::new()));
                i
            },
            None => {
                // No slot is empty: the precondition rules this out.
                0
            },
        }
    }

    /// Sends the first `len` bytes of `item` to queue `queue`. The result
    /// is one if the queue took the message. It is zero, and nothing
    /// changes, if the queue is full or the slot is empty.
    pub fn send(&mut self, queue: usize, item: &[u8], len: u32) -> (sent: i32)
        requires
            old(self).wf(),
            queue < MAX_MESSAGE_QUEUES,
            len <= item.len(),
            len <= MESSAGE_SIZE,
        ensures
            final(self).wf(),
            forall|i: int|
                0 <= i < MAX_MESSAGE_QUEUES && i != queue ==> #[trigger] final(self)@[i] == old(self)@[i],
            match old(self)@[queue as int] {
                Some(before) => {
                    &&& final(self)@[queue as int] matches Some(after)
                    &&& after.capacity() == before.capacity()
                    &&& sent == if before@.len() < before.capacity() {
                        1i32
                    } else {
                        0i32
                    }
                    &&& after@ == if before@.len() < before.capacity() {
                        before@.push(item@.take(len as int))
                    } else {
                        before@
                    }
                },
                None => sent == 0 && final(self)@[queue as int] is None,
            },
    {
        let mut slot: Option<MessageQueue> = None;
        std::mem::swap(&mut slot, &mut self.queues[queue]);
        match slot {
            Some(mut q) => {
                let sent = q.send(item, len);
                self.queues.set(queue, Some(q));
                sent
            },
            None => 0,
        }
    }

    /// Number of bytes of the oldest message of queue `queue`; nothing
    /// where the slot is empty or no message is pending.
    pub fn front_len(&self, queue: usize) -> (bytes: Option<usize>)
        requires
            self.wf(),
            queue < MAX_MESSAGE_QUEUES,
        ensures
            bytes == match self@[queue as int] {
                Some(q) => if q@.len() > 0 {
                    Some(q@[0].len() as usize)
                } else {
                    None
                },
                None => None,
            },
    {
        match &self.queues[queue] {
            Some(q) => q.peek_len(),
            None => None,
        }
    }

    /// Receives the oldest message of queue `queue` into the front of
    /// `item`, as [`MessageQueue::recv`] does. On an empty slot the result
    /// is zero and nothing changes.
    pub fn recv(&mut self, queue: usize, item: &mut Vec<u8>) -> (received: i32)
        requires
            old(self).wf(),
            queue < MAX_MESSAGE_QUEUES,
            old(self)@[queue as int] is Some && old(self)@[queue as int].unwrap()@.len() > 0
                ==> old(item).len() >= old(self)@[queue as int].unwrap()@[0].len(),
        ensures
            final(self).wf(),
            forall|i: int|
                0 <= i < MAX_MESSAGE_QUEUES && i != queue ==> #[trigger] final(self)@[i] == old(self)@[i],
            match old(self)@[queue as int] {
                Some(before) => {
                    &&& final(self)@[queue as int] matches Some(after)
                    &&& after.capacity() == before.capacity()
                    &&& before@.len() == 0 ==> received == 0 && after@ == before@ && final(item)@
                        == old(item)@
                    &&& before@.len() > 0 ==> {
                        &&& after@ == before@.skip(1)
                        &&& final(item)@ == before@[0] + old(item)@.skip(before@[0].len() as int)
                        &&& received == if before@[0].len() > 0 {
                            1i32
                        } else {
                            0i32
                        }
                    }
                },
                None => received == 0 && final(self)@[queue as int] is None && final(item)@ == old(item)@,
            },
    {
        let mut slot: Option<MessageQueue> = None;
        std::mem::swap(&mut slot, &mut self.queues[queue]);
        match slot {
            Some(mut q) => {
                let received = q.recv(item);
                self.queues.set(queue, Some(q));
                received
            },
            None => 0,
        }
    }
}

} // verus!
