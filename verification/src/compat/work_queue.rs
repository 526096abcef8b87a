//! Deferred work: two lanes of pending callbacks, filled from interrupt
//! context and drained from task context.

use vstd::prelude::*;
use crate::compat::queue::SimpleQueue;

verus! {

/// The largest number of callbacks that one drain takes out of a lane.
pub const WORK_BATCH: usize = 10;

/// The high and the low lane. `W` is the type of a work item: a callback
/// without arguments.
pub struct WorkQueues<W> {
    high: SimpleQueue<W>,
    low: SimpleQueue<W>,
}

/// How many callbacks a drain takes out of a lane that holds `pending`.
pub open spec fn batch_len(pending: nat) -> nat {
    if pending <= WORK_BATCH {
        pending
    } else {
        WORK_BATCH as nat
    }
}

impl<W> WorkQueues<W> {
    /// The representation invariant: that of both lanes.
    pub closed spec fn wf(&self) -> bool {
        self.high.wf() && self.low.wf()
    }

    /// The callbacks pending in the high lane, oldest first.
    pub closed spec fn high(&self) -> Seq<W> {
        self.high@
    }

    /// The callbacks pending in the low lane, oldest first.
    pub closed spec fn low(&self) -> Seq<W> {
        self.low@
    }

    /// The lane that `qid` names: zero is the high lane, anything else the
    /// low lane.
    pub open spec fn lane(&self, qid: i32) -> Seq<W> {
        if qid == 0 {
            self.high()
        } else {
            self.low()
        }
    }

    /// The lane that `qid` does not name.
    pub open spec fn other_lane(&self, qid: i32) -> Seq<W> {
        if qid == 0 {
            self.low()
        } else {
            self.high()
        }
    }

    /// The largest number of callbacks that a lane holds.
    pub closed spec fn lane_capacity(&self, qid: i32) -> nat {
        if qid == 0 {
            self.high.capacity()
        } else {
            self.low.capacity()
        }
    }

    /// Two empty lanes of the default size.
    pub fn new() -> (queues: Self)
        ensures
            queues.wf(),
            queues.high() == Seq::<W>::empty(),
            queues.low() == Seq::<W>::empty(),
            forall|qid: i32| queues.lane_capacity(qid) == crate::compat::queue::QUEUE_SIZE - 1,
    {
        WorkQueues { high: SimpleQueue::new(), low: SimpleQueue::new() }
    }

    /// Whether lane `qid` has no room for another callback.
    pub fn is_full(&self, qid: i32) -> (full: bool)
        requires
            self.wf(),
        ensures
            full == (self.lane(qid).len() == self.lane_capacity(qid)),
            self.lane(qid).len() <= self.lane_capacity(qid),
    {
        if qid == 0 {
            self.high.is_full()
        } else {
            self.low.is_full()
        }
    }
}

/// Submits `worker` to lane `qid` and returns zero. The delay is accepted
/// and not used: the callback runs at the lane's next drain. A full lane is
/// fatal, so callers rule it out.
pub fn work_queue<W>(queues: &mut WorkQueues<W>, qid: i32, worker: W, delay: i32) -> (status: i32)
    requires
        old(queues).wf(),
        old(queues).lane(qid).len() < old(queues).lane_capacity(qid),
    ensures
        status == 0,
        final(queues).wf(),
        final(queues).lane(qid) == old(queues).lane(qid).push(worker),
        final(queues).other_lane(qid) == old(queues).other_lane(qid),
        forall|q: i32| final(queues).lane_capacity(q) == old(queues).lane_capacity(q),
{
    if qid == 0 {
        queues.high.enqueue(worker);
    } else {
        queues.low.enqueue(worker);
    }
    0
}

/// Takes the oldest callbacks out of lane `qid`, at most [`WORK_BATCH`] of
/// them, and returns them oldest first. This is the part of a drain that
/// runs inside one critical section.
pub fn take_work<W>(queues: &mut WorkQueues<W>, qid: i32) -> (todo: Vec<W>)
    requires
        old(queues).wf(),
    ensures
        final(queues).wf(),
        todo@ == old(queues).lane(qid).take(batch_len(old(queues).lane(qid).len()) as int),
        final(queues).lane(qid) == old(queues).lane(qid).skip(
            batch_len(old(queues).lane(qid).len()) as int,
        ),
        final(queues).other_lane(qid) == old(queues).other_lane(qid),
        forall|q: i32| final(queues).lane_capacity(q) == old(queues).lane_capacity(q),
{
    let ghost pending = queues.lane(qid);
    let mut todo: Vec<W> = Vec::new();
    let mut i: usize = 0;
    while i < WORK_BATCH
        invariant
            queues.wf(),
            i <= WORK_BATCH,
            todo@.len() <= i,
            todo@.len() <= pending.len(),
            todo@.len() < i ==> todo@.len() == pending.len(),
            todo@ == pending.take(todo@.len() as int),
            queues.lane(qid) == pending.skip(todo@.len() as int),
            queues.other_lane(qid) == old(queues).other_lane(qid),
            forall|q: i32| queues.lane_capacity(q) == old(queues).lane_capacity(q),
        decreases WORK_BATCH - i,
    {
        let work = if qid == 0 {
            queues.high.dequeue()
        } else {
            queues.low.dequeue()
        };
        match work {
            Some(worker) => {
                let ghost taken = todo@.len() as int;
                todo.push(worker);
                proof {
                    assert(pending.skip(taken)[0] == pending[taken]);
                    assert(todo@ =~= pending.take(taken + 1));
                    assert(pending.skip(taken).skip(1) =~= pending.skip(taken + 1));
                }
            },
            None => {},
        }
        i = i + 1;
    }
    todo
}

/// Drains lane `qid`: takes the pending callbacks out as [`take_work`]
/// does, then calls each of them, oldest first.
///
/// The contract says which callbacks leave the lane and that each of them
/// has been called. It cannot say in which order they were called: a
/// callback is opaque, and a call leaves no trace that a clause could speak
/// of. The order is that of the batch, which [`take_work`] states.
pub fn do_work<W: Fn()>(queues: &mut WorkQueues<W>, qid: i32)
    requires
        old(queues).wf(),
        forall|k: int|
            0 <= k < batch_len(old(queues).lane(qid).len()) ==> call_requires(
                #[trigger] old(queues).lane(qid)[k],
                (),
            ),
    ensures
        final(queues).wf(),
        final(queues).lane(qid) == old(queues).lane(qid).skip(
            batch_len(old(queues).lane(qid).len()) as int,
        ),
        final(queues).other_lane(qid) == old(queues).other_lane(qid),
        forall|q: i32| final(queues).lane_capacity(q) == old(queues).lane_capacity(q),
        forall|k: int|
            0 <= k < batch_len(old(queues).lane(qid).len()) ==> call_ensures(
                #[trigger] old(queues).lane(qid)[k],
                (),
                (),
            ),
{
    let todo = take_work(queues, qid);
    let mut i: usize = 0;
    while i < todo.len()
        invariant
            i <= todo.len(),
            todo@ == old(queues).lane(qid).take(batch_len(old(queues).lane(qid).len()) as int),
            todo@.len() == batch_len(old(queues).lane(qid).len()),
            forall|k: int| 0 <= k < todo.len() ==> call_requires(#[trigger] todo@[k], ()),
            forall|k: int| 0 <= k < i ==> call_ensures(#[trigger] todo@[k], (), ()),
        decreases todo.len() - i,
    {
        (todo[i])();
        i = i + 1;
    }
    proof {
        assert forall|k: int| 0 <= k < batch_len(old(queues).lane(qid).len()) implies call_ensures(
            #[trigger] old(queues).lane(qid)[k],
            (),
            (),
        ) by {
            assert(todo@[k] == old(queues).lane(qid)[k]);
        }
    }
}

} // verus!
