//! Emulated timers: a small table of software timers, driven by a tick
//! that task context delivers once per scheduler period.
//!
//! Times are milliseconds on the system clock. A deadline of zero means
//! "not armed". A timer whose deadline has come fires at the next tick. A
//! periodic timer is then armed again one interval after that tick. A
//! timer with the interval zero is a one-shot timer: it fires once and is
//! not armed again.

use vstd::prelude::*;
use embedded_time::duration::Milliseconds;

verus! {

/// Number of slots of a table made by [`TimerTable::new`].
pub const MAX_TIMERS: usize = 2;

/// One software timer.
#[derive(Debug)]
pub struct EmulatedTimer<F> {
    /// Called each time the timer fires.
    pub notify_function: F,
    /// Distance between two firings, in milliseconds; zero for a one-shot
    /// timer.
    pub interval_ms: u32,
    /// The time at which the timer fires next; zero while it is not armed.
    pub next_notify: u32,
}

/// The timer is armed and its deadline has come.
pub open spec fn is_due<F>(timer: EmulatedTimer<F>, now: u32) -> bool {
    timer.next_notify != 0 && now >= timer.next_notify
}

/// The deadline of a timer with the given interval after it fired at
/// `now`: one interval later, or none for a one-shot timer.
pub open spec fn next_deadline(now: u32, interval_ms: u32) -> u32 {
    if interval_ms == 0 {
        0u32
    } else {
        (now + interval_ms) as u32
    }
}

/// The timer as one tick at time `now` leaves it: with its next deadline
/// if it was due, unchanged if it was not.
pub open spec fn after_tick<F>(timer: EmulatedTimer<F>, now: u32) -> EmulatedTimer<F> {
    if is_due(timer, now) {
        EmulatedTimer { next_notify: next_deadline(now, timer.interval_ms), ..timer }
    } else {
        timer
    }
}

/// A slot as one tick at time `now` leaves it.
pub open spec fn slot_after_tick<F>(slot: Option<EmulatedTimer<F>>, now: u32) -> Option<
    EmulatedTimer<F>,
> {
    match slot {
        Some(timer) => Some(after_tick(timer, now)),
        None => None,
    }
}

/// The slot holds a timer that is due.
pub open spec fn slot_is_due<F>(slot: Option<EmulatedTimer<F>>, now: u32) -> bool {
    slot matches Some(timer) && is_due(timer, now)
}

/// The ids of the timers that are due at time `now`, in table order. The
/// timer in slot `i` has the id `i + 1`.
pub open spec fn due_timers<F>(slots: Seq<Option<EmulatedTimer<F>>>, now: u32) -> Seq<usize>
    decreases slots.len(),
{
    if slots.len() == 0 {
        Seq::empty()
    } else if slot_is_due(slots.last(), now) {
        due_timers(slots.drop_last(), now).push(slots.len() as usize)
    } else {
        due_timers(slots.drop_last(), now)
    }
}

/// Slot `i` is the first empty slot.
pub open spec fn is_first_empty<F>(slots: Seq<Option<EmulatedTimer<F>>>, i: int) -> bool {
    &&& 0 <= i < slots.len()
    &&& slots[i] is None
    &&& forall|j: int| 0 <= j < i ==> (#[trigger] slots[j]) is Some
}

/// Some slot is empty.
pub open spec fn has_empty<F>(slots: Seq<Option<EmulatedTimer<F>>>) -> bool {
    exists|i: int| 0 <= i < slots.len() && (#[trigger] slots[i]) is None
}

/// `id` names a slot that holds a timer.
pub open spec fn is_timer<F>(slots: Seq<Option<EmulatedTimer<F>>>, id: usize) -> bool {
    0 < id <= slots.len() && slots[id - 1] is Some
}

/// No timer that is due at `now` would be armed again beyond the clock's
/// range.
pub open spec fn deadlines_in_range<F>(slots: Seq<Option<EmulatedTimer<F>>>, now: u32) -> bool {
    forall|i: int|
        0 <= i < slots.len() && slot_is_due(#[trigger] slots[i], now) ==> now
            + slots[i].unwrap().interval_ms <= u32::MAX
}

/// The sum of two millisecond durations, computed by `embedded_time`'s
/// `Add` for `Milliseconds<u32>`. That is a plain `u32` addition of the two
/// counts, which does not overflow on the sums admitted here.
#[verifier::external_body]
fn add_milliseconds(now: u32, interval: u32) -> (deadline: u32)
    requires
        now + interval <= u32::MAX,
    ensures
        deadline == now + interval,
{
    (Milliseconds::<u32>::new(now) + Milliseconds::<u32>::new(interval)).0
}

/// The table of emulated timers.
pub struct TimerTable<F> {
    timers: Vec<Option<EmulatedTimer<F>>>,
}

impl<F> TimerTable<F> {
    /// The slots of the table.
    pub closed spec fn view(&self) -> Seq<Option<EmulatedTimer<F>>> {
        self.timers@
    }

    /// A table of [`MAX_TIMERS`] empty slots.
    pub fn new() -> (table: Self)
        ensures
            table@.len() == MAX_TIMERS,
            forall|i: int| 0 <= i < table@.len() ==> (#[trigger] table@[i]) is None,
    {
        Self::with_slots(MAX_TIMERS)
    }

    /// A table of `slots` empty slots.
    pub fn with_slots(slots: usize) -> (table: Self)
        ensures
            table@.len() == slots,
            forall|i: int| 0 <= i < table@.len() ==> (#[trigger] table@[i]) is None,
    {
        let mut timers: Vec<Option<EmulatedTimer<F>>> = Vec::new();
        let mut i: usize = 0;
        while i < slots
            invariant
                i <= slots,
                timers.len() == i,
                forall|k: int| 0 <= k < i ==> (#[trigger] timers[k]) is None,
            decreases slots - i,
        {
            timers.push(None);
            i = i + 1;
        }
        TimerTable { timers }
    }

    /// Index of the first empty slot.
    pub fn find_empty(&self) -> (found: Option<usize>)
        ensures
            match found {
                Some(i) => is_first_empty(self@, i as int),
                None => !has_empty(self@),
            },
    {
        let mut i: usize = 0;
        while i < self.timers.len()
            invariant
                i <= self.timers.len(),
                forall|j: int| 0 <= j < i ==> (#[trigger] self@[j]) is Some,
            decreases self.timers.len() - i,
        {
            if self.timers[i].is_none() {
                return Some(i);
            }
            i = i + 1;
        }
        None
    }

    /// Whether `id` names a slot that holds a timer.
    pub fn is_active(&self, id: usize) -> (found: bool)
        ensures
            found == is_timer(self@, id),
    {
        0 < id && id <= self.timers.len() && self.timers[id - 1].is_some()
    }

    /// The time at which timer `id` fires next; zero while it is not
    /// armed. Nothing for an id that names no timer.
    pub fn next_notify(&self, id: usize) -> (deadline: Option<u32>)
        ensures
            deadline == if is_timer(self@, id) {
                Some(self@[id - 1].unwrap().next_notify)
            } else {
                None
            },
    {
        if 0 < id && id <= self.timers.len() {
            match &self.timers[id - 1] {
                Some(timer) => Some(timer.next_notify),
                None => None,
            }
        } else {
            None
        }
    }

    /// The interval of timer `id`, in milliseconds. Nothing for an id that
    /// names no timer.
    pub fn interval_ms(&self, id: usize) -> (interval: Option<u32>)
        ensures
            interval == if is_timer(self@, id) {
                Some(self@[id - 1].unwrap().interval_ms)
            } else {
                None
            },
    {
        if 0 < id && id <= self.timers.len() {
            match &self.timers[id - 1] {
                Some(timer) => Some(timer.interval_ms),
                None => None,
            }
        } else {
            None
        }
    }

    /// Puts a new timer for `callback` into the first empty slot and
    /// returns its id, which is the slot's index plus one. The timer is not
    /// armed. A table without an empty slot is fatal, so callers rule it out.
    pub fn create(&mut self, callback: F) -> (id: usize)
        requires
            has_empty(old(self)@),
        ensures
            is_first_empty(old(self)@, id - 1),
            final(self)@ == old(self)@.update(
                id - 1,
                Some(EmulatedTimer { notify_function: callback, interval_ms: 0, next_notify: 0 }),
            ),
    {
        let slots = self.timers.len();
        match self.find_empty() {
            Some(i) => {
                assert(i < slots);
                self.timers.set(
                    i,
                    Some(EmulatedTimer { notify_function: callback, interval_ms: 0, next_notify: 0 }),
                );
                i + 1
            },
            None => {
                // No slot is empty: the precondition rules this out.
                0
            },
        }
    }

    /// Clears the slot of timer `id`. Deleting a timer that does not exist
    /// is fatal, so callers rule it out.
    pub fn delete(&mut self, id: usize)
        requires
            is_timer(old(self)@, id),
        ensures
            final(self)@ == old(self)@.update(id - 1, None),
    {
        self.timers.set(id - 1, None);
    }

    /// Arms timer `id` to fire once, `delay_ms` milliseconds after `now`.
    /// The deadline zero, which only the time zero with the delay zero
    /// gives, leaves the timer not armed.
    pub fn start_once(&mut self, id: usize, now: u32, delay_ms: u32)
        requires
            is_timer(old(self)@, id),
            now + delay_ms <= u32::MAX,
        ensures
            final(self)@ == old(self)@.update(
                id - 1,
                Some(
                    EmulatedTimer {
                        interval_ms: 0,
                        next_notify: (now + delay_ms) as u32,
                        ..old(self)@[id - 1].unwrap()
                    },
                ),
            ),
    {
        let mut slot: Option<EmulatedTimer<F>> = None;
        std::mem::swap(&mut slot, &mut self.timers[id - 1]);
        match slot {
            Some(timer) => {
                let armed = EmulatedTimer {
                    notify_function: timer.notify_function,
                    interval_ms: 0,
                    next_notify: add_milliseconds(now, delay_ms),
                };
                self.timers.set(id - 1, Some(armed));
                assert(self@ =~= old(self)@.update(id - 1, Some(armed)));
            },
            None => {},
        }
    }

    /// Arms timer `id` to fire every `interval_ms` milliseconds, for the
    /// first time one interval after `now`. With the interval zero the
    /// timer fires once, at the first tick at or after `now`. The deadline
    /// zero, which only the time zero with the interval zero gives, leaves
    /// the timer not armed.
    pub fn start_periodic(&mut self, id: usize, now: u32, interval_ms: u32)
        requires
            is_timer(old(self)@, id),
            now + interval_ms <= u32::MAX,
        ensures
            final(self)@ == old(self)@.update(
                id - 1,
                Some(
                    EmulatedTimer {
                        interval_ms,
                        next_notify: (now + interval_ms) as u32,
                        ..old(self)@[id - 1].unwrap()
                    },
                ),
            ),
    {
        let mut slot: Option<EmulatedTimer<F>> = None;
        std::mem::swap(&mut slot, &mut self.timers[id - 1]);
        match slot {
            Some(timer) => {
                let armed = EmulatedTimer {
                    notify_function: timer.notify_function,
                    interval_ms,
                    next_notify: add_milliseconds(now, interval_ms),
                };
                self.timers.set(id - 1, Some(armed));
                assert(self@ =~= old(self)@.update(id - 1, Some(armed)));
            },
            None => {},
        }
    }

    /// Arms timer `id` to fire every `t_sec` seconds, for the first time
    /// that long after `now`. The nanoseconds are accepted and not used.
    pub fn start_periodic_secs(&mut self, id: usize, now: u32, t_sec: u32, t_nsec: u32)
        requires
            is_timer(old(self)@, id),
            now + t_sec * 1000 <= u32::MAX,
        ensures
            final(self)@ == old(self)@.update(
                id - 1,
                Some(
                    EmulatedTimer {
                        interval_ms: (t_sec * 1000) as u32,
                        next_notify: (now + t_sec * 1000) as u32,
                        ..old(self)@[id - 1].unwrap()
                    },
                ),
            ),
    {
        self.start_periodic(id, now, t_sec * 1000);
    }

    /// The largest interval among the timers that are due at `now`; zero
    /// if none is due.
    pub fn longest_due_interval(&self, now: u32) -> (longest: u32)
        ensures
            forall|i: int|
                0 <= i < self@.len() && slot_is_due(#[trigger] self@[i], now)
                    ==> self@[i].unwrap().interval_ms <= longest,
            longest == 0 || exists|i: int|
                0 <= i < self@.len() && slot_is_due(#[trigger] self@[i], now)
                    && self@[i].unwrap().interval_ms == longest,
            deadlines_in_range(self@, now) <==> now + longest <= u32::MAX,
    {
        let mut longest: u32 = 0;
        let mut i: usize = 0;
        while i < self.timers.len()
            invariant
                i <= self.timers.len(),
                forall|k: int|
                    0 <= k < i && slot_is_due(#[trigger] self@[k], now)
                        ==> self@[k].unwrap().interval_ms <= longest,
                longest == 0 || exists|k: int|
                    0 <= k < i && slot_is_due(#[trigger] self@[k], now)
                        && self@[k].unwrap().interval_ms == longest,
            decreases self.timers.len() - i,
        {
            match &self.timers[i] {
                Some(timer) => {
                    if timer.next_notify != 0 && now >= timer.next_notify && timer.interval_ms
                        > longest {
                        longest = timer.interval_ms;
                    }
                },
                None => {},
            }
            i = i + 1;
        }
        longest
    }
}

impl<F: Fn()> TimerTable<F> {
    /// One tick at time `now`: every timer that is armed and whose deadline
    /// has come has its callback called, in table order. A periodic timer
    /// is then armed again at `now` plus its interval; a one-shot timer is
    /// not armed again. Returns the ids of the timers that fired.
    ///
    /// The contract says which timers fired, in which order their ids are
    /// returned, and that the callback of each has been called. It cannot
    /// say in which order the callbacks were called: a callback is opaque,
    /// and a call leaves no trace that a clause could speak of. The order
    /// is that of the ids returned.
    pub fn tick(&mut self, now: u32) -> (fired: Vec<usize>)
        requires
            deadlines_in_range(old(self)@, now),
            forall|i: int|
                0 <= i < old(self)@.len() && slot_is_due(#[trigger] old(self)@[i], now)
                    ==> call_requires(old(self)@[i].unwrap().notify_function, ()),
        ensures
            final(self)@.len() == old(self)@.len(),
            forall|i: int|
                0 <= i < old(self)@.len() ==> #[trigger] final(self)@[i] == slot_after_tick(
                    old(self)@[i],
                    now,
                ),
            fired@ == due_timers(old(self)@, now),
            forall|i: int|
                0 <= i < old(self)@.len() && slot_is_due(#[trigger] old(self)@[i], now)
                    ==> call_ensures(old(self)@[i].unwrap().notify_function, (), ()),
    {
        let ghost before = self@;
        let mut fired: Vec<usize> = Vec::new();
        let mut i: usize = 0;
        while i < self.timers.len()
            invariant
                i <= self.timers.len(),
                self@.len() == before.len(),
                before == old(self)@,
                deadlines_in_range(before, now),
                forall|k: int|
                    0 <= k < before.len() && slot_is_due(#[trigger] before[k], now)
                        ==> call_requires(before[k].unwrap().notify_function, ()),
                forall|k: int| 0 <= k < i ==> #[trigger] self@[k] == slot_after_tick(before[k], now),
                forall|k: int| i <= k < before.len() ==> #[trigger] self@[k] == before[k],
                fired@ == due_timers(before.take(i as int), now),
                forall|k: int|
                    0 <= k < i && slot_is_due(#[trigger] before[k], now) ==> call_ensures(
                        before[k].unwrap().notify_function,
                        (),
                        (),
                    ),
            decreases self.timers.len() - i,
        {
            let ghost prior = self@;
            assert(self@[i as int] == before[i as int]);
            let mut slot: Option<EmulatedTimer<F>> = None;
            std::mem::swap(&mut slot, &mut self.timers[i]);
            match slot {
                Some(timer) => {
                    if timer.next_notify != 0 && now >= timer.next_notify {
                        (timer.notify_function)();
                        let next_notify = if timer.interval_ms == 0 {
                            0
                        } else {
                            add_milliseconds(now, timer.interval_ms)
                        };
                        let armed = EmulatedTimer {
                            notify_function: timer.notify_function,
                            interval_ms: timer.interval_ms,
                            next_notify,
                        };
                        self.timers.set(i, Some(armed));
                        fired.push(i + 1);
                    } else {
                        self.timers.set(i, Some(timer));
                    }
                },
                None => {},
            }
            proof {
                assert(before.take(i + 1).drop_last() =~= before.take(i as int));
                assert(before.take(i + 1).last() == before[i as int]);
                assert forall|k: int| i + 1 <= k < before.len() implies #[trigger] self@[k]
                    == before[k] by {
                    assert(prior[k] == before[k]);
                }
                assert forall|k: int| 0 <= k < i + 1 implies #[trigger] self@[k]
                    == slot_after_tick(before[k], now) by {
                    if k < i {
                        assert(prior[k] == slot_after_tick(before[k], now));
                    }
                }
            }
            i = i + 1;
        }
        proof {
            assert(before.take(before.len() as int) =~= before);
        }
        fired
    }
}

} // verus!
