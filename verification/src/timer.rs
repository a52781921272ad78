//! Clocks driven by the time that each tick hands in, in microseconds.

use vstd::prelude::*;

verus! {

/// A clock that goes off every `duration` microseconds and keeps what is left
/// over for the next round.
#[derive(Clone, Copy, Debug, PartialEq, Eq, Structural)]
pub struct RepeatTimer {
    pub duration: u64,
    pub elapsed: u64,
}

impl RepeatTimer {
    /// Whether `dt` more microseconds bring the clock to its duration.
    pub open spec fn fires(self, dt: u64) -> bool {
        self.elapsed + dt >= self.duration
    }

    /// The clock `dt` microseconds later.
    pub open spec fn ticked(self, dt: u64) -> RepeatTimer {
        RepeatTimer {
            duration: self.duration,
            elapsed: if self.duration == 0 {
                0
            } else {
                ((self.elapsed + dt) % (self.duration as int)) as u64
            },
        }
    }

    /// A clock of the given period that has just been started.
    pub fn from_micros(duration: u64) -> (timer: RepeatTimer)
        ensures
            timer == (RepeatTimer { duration, elapsed: 0 }),
    {
        RepeatTimer { duration, elapsed: 0 }
    }

    /// Advances the clock and says whether it went off during this tick.
    pub fn tick(&mut self, dt: u64) -> (just_finished: bool)
        ensures
            *final(self) == old(self).ticked(dt),
            just_finished == old(self).fires(dt),
    {
        let sum: u128 = self.elapsed as u128 + dt as u128;
        let just_finished: bool = sum >= self.duration as u128;
        if self.duration == 0 {
            self.elapsed = 0;
        } else {
            self.elapsed = (sum % (self.duration as u128)) as u64;
        }
        just_finished
    }
}

/// The wait before a building of some kind may be placed again.
///
/// While `available` is false the wait runs; when `elapsed` reaches `duration`
/// the kind becomes available and stays so, the clock standing still, until a
/// placement uses it up and the wait starts over in full.
#[derive(Clone, Copy, Debug, PartialEq, Eq, Structural)]
pub struct Cooldown {
    pub duration: u64,
    pub elapsed: u64,
    pub available: bool,
}

/// Sum of the steps.
pub open spec fn total(steps: Seq<u64>) -> nat
    decreases steps.len(),
{
    if steps.len() == 0 {
        0
    } else {
        total(steps.drop_last()) + steps.last() as nat
    }
}

impl Cooldown {
    /// Whether the kind becomes available during a tick of `dt` microseconds:
    /// true on the one tick that ends the wait.
    pub open spec fn becomes_available(self, dt: u64) -> bool {
        !self.available && self.elapsed + dt >= self.duration
    }

    /// The wait `dt` microseconds later.
    pub open spec fn ticked(self, dt: u64) -> Cooldown {
        if self.available {
            self
        } else if self.elapsed + dt >= self.duration {
            Cooldown { duration: self.duration, elapsed: 0, available: true }
        } else {
            Cooldown {
                duration: self.duration,
                elapsed: (self.elapsed + dt) as u64,
                available: false,
            }
        }
    }

    /// The wait after a placement was asked for: used up where the kind was
    /// available, untouched where it was not.
    pub open spec fn placed(self) -> Cooldown {
        if self.available {
            Cooldown { duration: self.duration, elapsed: 0, available: false }
        } else {
            self
        }
    }

    /// The wait after a run of ticks.
    pub open spec fn after(self, steps: Seq<u64>) -> Cooldown
        decreases steps.len(),
    {
        if steps.len() == 0 {
            self
        } else {
            self.after(steps.drop_last()).ticked(steps.last())
        }
    }

    /// A wait of the given length that has just begun.
    pub fn from_micros(duration: u64) -> (cooldown: Cooldown)
        ensures
            cooldown == (Cooldown { duration, elapsed: 0, available: false }),
    {
        Cooldown { duration, elapsed: 0, available: false }
    }

    /// Advances the wait and says whether the kind became available during this
    /// tick.
    pub fn tick(&mut self, dt: u64) -> (just_available: bool)
        ensures
            *final(self) == old(self).ticked(dt),
            just_available == old(self).becomes_available(dt),
    {
        if self.available {
            return false;
        }
        let sum: u128 = self.elapsed as u128 + dt as u128;
        if sum >= self.duration as u128 {
            self.elapsed = 0;
            self.available = true;
            true
        } else {
            self.elapsed = sum as u64;
            false
        }
    }

    /// Uses the availability up, if there is any, and says whether there was.
    pub fn place(&mut self) -> (was_available: bool)
        ensures
            *final(self) == old(self).placed(),
            was_available == old(self).available,
    {
        if self.available {
            self.available = false;
            self.elapsed = 0;
            true
        } else {
            false
        }
    }

    /// Where a running wait stands after a run of ticks: still running while the
    /// time handed in stays short of what was left, available ever after.
    pub proof fn lemma_after(self, steps: Seq<u64>)
        requires
            !self.available,
            self.elapsed < self.duration,
        ensures
            self.elapsed + total(steps) < self.duration ==> self.after(steps) == (Cooldown {
                duration: self.duration,
                elapsed: (self.elapsed + total(steps)) as u64,
                available: false,
            }),
            self.elapsed + total(steps) >= self.duration ==> self.after(steps) == (Cooldown {
                duration: self.duration,
                elapsed: 0,
                available: true,
            }),
        decreases steps.len(),
    {
        if steps.len() > 0 {
            self.lemma_after(steps.drop_last());
        }
    }

    /// One end of the wait allows one placement: whatever was asked for, nothing
    /// is available after a placement, and a second placement finds nothing to
    /// use up.
    pub proof fn lemma_one_placement(self)
        ensures
            !self.placed().available,
            self.placed().placed() == self.placed(),
            self.available ==> self.placed() == (Cooldown {
                duration: self.duration,
                elapsed: 0,
                available: false,
            }),
    {
    }

    /// Of a run of ticks on a running wait, exactly one reports that the kind
    /// became available: the first at whose end the time handed in has reached
    /// what was left of the wait.  Every tick before it and every tick after it
    /// reports nothing, however the time is cut into ticks.
    pub proof fn lemma_single_edge(self, steps: Seq<u64>, i: int)
        requires
            !self.available,
            self.elapsed < self.duration,
            0 <= i < steps.len(),
        ensures
            self.after(steps.take(i)).becomes_available(steps[i]) <==> (self.elapsed + total(
                steps.take(i),
            ) < self.duration && self.duration <= self.elapsed + total(steps.take(i + 1))),
    {
        self.lemma_after(steps.take(i));
        assert(steps.take(i + 1).drop_last() =~= steps.take(i));
        assert(steps.take(i + 1).last() == steps[i]);
    }
}

} // verus!
