//! Timers.

use crate::time;
use crate::time::Delay;
use vstd::prelude::*;

verus! {

/// Decides how long a timer sleeps.
#[derive(Debug, Clone, Copy)]
pub struct TimerService;

impl TimerService {
    /// The timer service.
    pub fn new() -> (timers: TimerService)
        ensures
            timers == TimerService,
    {
        TimerService
    }

    /// How long to sleep for a delay in milliseconds; not at all where it is
    /// zero.
    pub fn sleep_ms(&self, delay_ms: u64) -> (sleep: Option<Delay>)
        ensures
            match sleep {
                Some(delay) => delay_ms > 0 && time::delay_nanos(delay) == delay_ms * 1_000_000,
                None => delay_ms == 0,
            },
    {
        if delay_ms == 0 {
            None
        } else {
            Some(Delay::from_millis(delay_ms))
        }
    }

    /// How long to sleep for a delay; not at all where it is zero.
    pub fn sleep(&self, delay: Delay) -> (sleep: Option<Delay>)
        ensures
            sleep == (if time::delay_nanos(delay) == 0 {
                None
            } else {
                Some(delay)
            }),
    {
        if delay.is_zero() {
            None
        } else {
            Some(delay)
        }
    }
}

} // verus!
