//! A stopwatch over a free-running cycle counter. The counter is read by the
//! caller, who hands each reading in; the counter may wrap around, and the
//! elapsed count is taken modulo 2^64.

use vstd::prelude::*;

verus! {

/// The cycles between two readings of a counter that counts modulo 2^64.
pub open spec fn cycles_between(start: u64, now: u64) -> int {
    if now >= start {
        now - start
    } else {
        now + 0x1_0000_0000_0000_0000int - start
    }
}

/// Remembers the counter reading at which it was started.
pub struct CpuTimer {
    start: u64,
}

impl CpuTimer {
    /// The reading at which the timer was last started.
    pub closed spec fn started_at(&self) -> u64 {
        self.start
    }

    /// A timer started at the reading `now`.
    pub fn new(now: u64) -> (timer: Self)
        ensures
            timer.started_at() == now,
    {
        CpuTimer { start: now }
    }

    /// The cycles from the start to the reading `now`, with wrap-around.
    pub fn elapsed_cycles(&self, now: u64) -> (cycles: u64)
        ensures
            cycles == cycles_between(self.started_at(), now),
    {
        now.wrapping_sub(self.start)
    }

    /// Starts the timer again at the reading `now`.
    pub fn reset(&mut self, now: u64)
        ensures
            final(self).started_at() == now,
    {
        self.start = now;
    }
}

/// A timer reports, for a later reading, the counter's advance since it was
/// started; and zero at the reading at which it was started or reset.
pub proof fn law_elapsed_since_start(start: u64, now: u64)
    ensures
        now >= start ==> cycles_between(start, now) == now - start,
        cycles_between(start, start) == 0,
        0 <= cycles_between(start, now) < 0x1_0000_0000_0000_0000int,
{
}

} // verus!
