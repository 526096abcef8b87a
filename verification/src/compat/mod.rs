//! The services that the radio's protocol stack expects from its
//! surroundings, and the system clock.

pub mod bl602;
pub mod circbuf;
pub mod common;
pub mod format;
pub mod malloc;
pub mod queue;
pub mod work_queue;

use vstd::prelude::*;

verus! {

/// Where the time comes from: a function that reads the system clock, in
/// milliseconds, once one has been set.
pub struct TimeSource<F> {
    source: Option<F>,
}

impl<F> TimeSource<F> {
    /// The function that reads the clock, if one has been set.
    pub closed spec fn source(&self) -> Option<F> {
        self.source
    }

    /// A time source without a function to read the clock.
    pub fn new() -> (time: Self)
        ensures
            time.source() is None,
    {
        TimeSource { source: None }
    }

    /// Whether a function to read the clock has been set.
    pub fn is_set(&self) -> (set: bool)
        ensures
            set == (self.source() is Some),
    {
        self.source.is_some()
    }
}

/// Sets the function that reads the clock.
pub fn set_time_source<F>(time: &mut TimeSource<F>, time_source: F)
    ensures
        final(time).source() == Some(time_source),
{
    time.source = Some(time_source);
}

/// The time now: what the function that reads the clock returns. Asking
/// for the time before a source was set is fatal, so callers rule it out.
pub fn get_time<F: Fn() -> u32>(time: &TimeSource<F>) -> (now: u32)
    requires
        time.source() is Some,
        call_requires(time.source().unwrap(), ()),
    ensures
        call_ensures(time.source().unwrap(), (), now),
{
    match &time.source {
        Some(time_source) => time_source(),
        None => 0,
    }
}

} // verus!
