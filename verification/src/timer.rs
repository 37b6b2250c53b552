//! Timers.
//!
//! Timers advance by the wall-clock tick duration and fire at most one
//! logical event per tick, however much real time elapsed; a fire wraps
//! the elapsed time into the period. The spawn timer stores the spawn
//! *rate* rather than the period, so the accelerating-arrival rule — each
//! spawn, the next period becomes `1 / (1/period + k)` — is the exact
//! increment `rate + k`.
use vstd::prelude::*;

verus! {

/// Largest period a repeating timer can carry, in milliseconds.
pub const PERIOD_LIMIT_MS: u64 = 1_000_000;

#[derive(Clone, Copy, Debug, PartialEq, Eq, Structural)]
pub struct RepeatingTimer {
    pub period_ms: u64,
    pub elapsed_ms: u64,
}

impl RepeatingTimer {
    pub open spec fn wf(self) -> bool {
        &&& 0 < self.period_ms <= PERIOD_LIMIT_MS
        &&& self.elapsed_ms < self.period_ms
    }

    pub fn new(period_ms: u64) -> (r: RepeatingTimer)
        requires
            0 < period_ms <= PERIOD_LIMIT_MS,
        ensures
            r.wf(),
            r.period_ms == period_ms,
            r.elapsed_ms == 0,
    {
        RepeatingTimer { period_ms, elapsed_ms: 0 }
    }

    /// Advance by `dt_ms`; fires at most once, wrapping the remainder.
    pub fn tick(&mut self, dt_ms: u64) -> (fired: bool)
        requires
            old(self).wf(),
            dt_ms <= crate::movement::TICK_LIMIT_MS,
        ensures
            final(self).wf(),
            final(self).period_ms == old(self).period_ms,
            fired == (old(self).elapsed_ms + dt_ms >= old(self).period_ms),
            final(self).elapsed_ms == if fired {
                (old(self).elapsed_ms + dt_ms) % (old(self).period_ms as int)
            } else {
                old(self).elapsed_ms + dt_ms
            },
    {
        let total = self.elapsed_ms + dt_ms;
        if total >= self.period_ms {
            self.elapsed_ms = total % self.period_ms;
            true
        } else {
            self.elapsed_ms = total;
            false
        }
    }
}

/// Spawn rate step per spawn, in fires per thousand seconds: the constant
/// `k` of the accelerating-arrival rule.
pub const SPAWN_RATE_STEP: u64 = 50;

/// Largest spawn rate, in fires per thousand seconds (period one
/// millisecond).
pub const SPAWN_RATE_MAX: u64 = 1_000_000;

/// The period, in milliseconds, of a spawn rate given in fires per
/// thousand seconds.
pub open spec fn period_of_rate(rate: int) -> int {
    1_000_000int / rate
}

/// The encounter timer: a repeating timer whose period shrinks each fire
/// so that the spawn frequency grows by a constant amount per spawn.
#[derive(Clone, Copy, Debug, PartialEq, Eq, Structural)]
pub struct SpawnTimer {
    /// Fires per thousand seconds.
    pub rate: u64,
    pub elapsed_ms: u64,
}

impl SpawnTimer {
    pub open spec fn wf(self) -> bool {
        &&& 0 < self.rate <= SPAWN_RATE_MAX
        &&& self.elapsed_ms <= PERIOD_LIMIT_MS
    }

    pub fn new(rate: u64) -> (r: SpawnTimer)
        requires
            0 < rate <= SPAWN_RATE_MAX,
        ensures
            r.wf(),
            r.rate == rate,
            r.elapsed_ms == 0,
    {
        SpawnTimer { rate, elapsed_ms: 0 }
    }

    /// Advance by `dt_ms`. On a fire, the elapsed remainder wraps into the
    /// old period and the rate grows by the constant step, capped: exactly
    /// `1/period' == 1/period + k` in rate form.
    pub fn tick(&mut self, dt_ms: u64) -> (fired: bool)
        requires
            old(self).wf(),
            dt_ms <= crate::movement::TICK_LIMIT_MS,
        ensures
            final(self).wf(),
            fired == (old(self).elapsed_ms + dt_ms >= period_of_rate(old(self).rate as int)),
            !fired ==> final(self).rate == old(self).rate,
            !fired ==> final(self).elapsed_ms == old(self).elapsed_ms + dt_ms,
            fired ==> final(self).rate == (if old(self).rate + SPAWN_RATE_STEP <= SPAWN_RATE_MAX {
                old(self).rate + SPAWN_RATE_STEP
            } else {
                SPAWN_RATE_MAX as int
            }),
            fired ==> final(self).elapsed_ms == (old(self).elapsed_ms + dt_ms) % period_of_rate(
                old(self).rate as int,
            ),
    {
        proof {
            vstd::arithmetic::div_mod::lemma_div_pos_is_pos(1_000_000, self.rate as int);
            vstd::arithmetic::div_mod::lemma_div_is_ordered(
                1,
                1_000_000,
                self.rate as int,
            );
            assert(1int / (self.rate as int) >= 0);
        }
        let period: u64 = 1_000_000 / self.rate;
        proof {
            assert(period >= 1) by {
                vstd::arithmetic::div_mod::lemma_div_non_zero(1_000_000, self.rate as int);
            }
        }
        let total = self.elapsed_ms + dt_ms;
        if total >= period {
            self.elapsed_ms = total % period;
            self.rate = if self.rate + SPAWN_RATE_STEP <= SPAWN_RATE_MAX {
                self.rate + SPAWN_RATE_STEP
            } else {
                SPAWN_RATE_MAX
            };
            true
        } else {
            self.elapsed_ms = total;
            false
        }
    }
}

} // verus!
