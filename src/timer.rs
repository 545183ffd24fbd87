use vstd::prelude::*;

verus! {

/// Cooldown of every producer timer, in nanoseconds (one time unit).
pub const PRODUCER_COOLDOWN: u64 = 1_000_000_000;

/// A single-shot countdown on integer nanoseconds.
///
/// `elapsed` never passes `duration`: ticking saturates there.
#[derive(Clone, Copy, Debug, PartialEq, Eq)]
pub struct CooldownTimer {
    pub elapsed: u64,
    pub duration: u64,
}

impl CooldownTimer {
    pub open spec fn wf(self) -> bool {
        self.elapsed <= self.duration
    }

    pub open spec fn is_finished(self) -> bool {
        self.elapsed >= self.duration
    }

    /// The timer after `delta` nanoseconds have passed.
    pub open spec fn ticked(self, delta: u64) -> CooldownTimer {
        CooldownTimer {
            elapsed: if self.elapsed + delta >= self.duration {
                self.duration
            } else {
                (self.elapsed + delta) as u64
            },
            duration: self.duration,
        }
    }

    /// The timer restarted from zero.
    pub open spec fn restarted(self) -> CooldownTimer {
        CooldownTimer { elapsed: 0, duration: self.duration }
    }

    /// A fresh timer that has not started counting.
    pub fn new(duration: u64) -> (t: CooldownTimer)
        ensures
            t.elapsed == 0,
            t.duration == duration,
            t.wf(),
    {
        CooldownTimer { elapsed: 0, duration }
    }

    /// A fresh timer of the producer cooldown.
    pub fn producer() -> (t: CooldownTimer)
        ensures
            t == (CooldownTimer { elapsed: 0, duration: PRODUCER_COOLDOWN }),
    {
        CooldownTimer::new(PRODUCER_COOLDOWN)
    }

    /// Advances the timer by `delta` nanoseconds, stopping at its duration.
    pub fn tick(&mut self, delta: u64)
        requires
            old(self).wf(),
        ensures
            *final(self) == old(self).ticked(delta),
            final(self).wf(),
    {
        if delta >= self.duration - self.elapsed {
            self.elapsed = self.duration;
        } else {
            self.elapsed = self.elapsed + delta;
        }
    }

    pub fn finished(&self) -> (r: bool)
        ensures
            r == self.is_finished(),
    {
        self.elapsed >= self.duration
    }

    /// Sets the elapsed time back to zero.
    pub fn reset(&mut self)
        ensures
            *final(self) == old(self).restarted(),
            final(self).wf(),
    {
        self.elapsed = 0;
    }

    /// Progress as a fraction `(numerator, denominator)` within `[0, 1]`.
    ///
    /// A timer of zero duration reads as complete.
    pub fn progress(&self) -> (r: (u64, u64))
        requires
            self.wf(),
        ensures
            r.1 > 0,
            r.0 <= r.1,
            self.duration > 0 ==> r == (self.elapsed, self.duration),
            self.duration == 0 ==> r == (1u64, 1u64),
    {
        if self.duration == 0 {
            (1, 1)
        } else {
            (self.elapsed, self.duration)
        }
    }
}

} // verus!
