//! The clock of the simulation.
//!
//! The engine never reads the system time: it asks its clock. That
//! indirection runs one scenario in two modes without touching any
//! instrument: a wall clock, in step with real time, and a [`VirtualClock`],
//! whose time the engine dictates and which runs as fast as the CPU allows.
//!
//! Waiting for real time cannot happen here; the wall clock does its waiting
//! outside and asks [`wall_wait_nanos`] how long to wait and [`wall_lag_nanos`]
//! how far behind it runs.
use vstd::prelude::*;
use std::time::Duration;
use crate::time::{duration_nanos, SimTime};

verus! {

/// The time source of the simulation. The engine keeps it behind a trait
/// object, so that a wall clock and a virtual clock are interchangeable
/// without the code around them changing.
pub trait Clock: Send {
    /// The current instant of the simulation.
    fn now(&self) -> SimTime;

    /// The period between two consecutive ticks.
    fn period(&self) -> Duration;

    /// Advances one tick and returns the new instant: exactly one period
    /// later. A wall clock blocks here until the moment comes.
    fn tick(&mut self) -> SimTime;
}

/// A virtual clock: it advances when told to, without waiting for anyone, so
/// two runs of one scenario give identical results.
#[derive(Debug, Clone, Copy)]
pub struct VirtualClock {
    now: SimTime,
    period: Duration,
}

impl VirtualClock {
    /// The current instant.
    pub closed spec fn now_spec(&self) -> SimTime {
        self.now
    }

    /// The period between two ticks.
    pub closed spec fn period_spec(&self) -> Duration {
        self.period
    }

    /// A virtual clock at instant zero with the given tick period, which may
    /// not be zero.
    pub fn new(period: Duration) -> (r: Self)
        requires
            duration_nanos(period) > 0,
        ensures
            r.now_spec().nanos() == 0,
            r.period_spec() == period,
    {
        VirtualClock { now: SimTime::zero(), period }
    }

    /// Jumps forward by a duration at once.
    pub fn advance(&mut self, by: Duration)
        requires
            old(self).now_spec().nanos() + duration_nanos(by) <= u64::MAX,
        ensures
            final(self).now_spec().nanos() == old(self).now_spec().nanos() + duration_nanos(by),
            final(self).period_spec() == old(self).period_spec(),
    {
        self.now = self.now + by;
    }
}

impl Clock for VirtualClock {
    fn now(&self) -> (r: SimTime)
        ensures
            r == self.now_spec(),
    {
        self.now
    }

    fn period(&self) -> (r: Duration)
        ensures
            r == self.period_spec(),
    {
        self.period
    }

    /// One period later, exactly. At the last instant a `SimTime` can hold
    /// (some 584 years in) the clock stays where it is.
    fn tick(&mut self) -> (r: SimTime)
        ensures
            r == final(self).now_spec(),
            final(self).period_spec() == old(self).period_spec(),
            old(self).now_spec().nanos() + duration_nanos(old(self).period_spec()) <= u64::MAX ==> r.nanos()
                == old(self).now_spec().nanos() + duration_nanos(old(self).period_spec()),
            old(self).now_spec().nanos() + duration_nanos(old(self).period_spec()) > u64::MAX ==> r
                == old(self).now_spec(),
    {
        let d = crate::time::duration_as_nanos(self.period);
        if d <= (u64::MAX - self.now.as_nanos()) as u128 {
            self.now = self.now + self.period;
        }
        self.now
    }
}

/// The instant, in nanoseconds, after `n` ticks of `period` nanoseconds
/// from `start`, one tick at a time.
pub open spec fn after_ticks(start: nat, period: nat, n: nat) -> nat
    decreases n,
{
    if n == 0 {
        start
    } else {
        after_ticks(start, period, (n - 1) as nat) + period
    }
}

/// Ticking never accumulates rounding error: `n` ticks of a period are
/// exactly `n` periods.
pub proof fn law_ticks_are_exact(start: nat, period: nat, n: nat)
    ensures
        after_ticks(start, period, n) == start + n * period,
    decreases n,
{
    if n > 0 {
        law_ticks_are_exact(start, period, (n - 1) as nat);
        assert((n - 1) * period + period == n * period) by (nonlinear_arith);
    } else {
        assert(n * period == 0) by (nonlinear_arith)
            requires
                n == 0,
        ;
    }
}

/// How long a wall clock must still wait, in nanoseconds, before its tick at
/// `target_nanos` from its origin, when `elapsed_nanos` have passed since the
/// origin. The schedule is absolute: each tick is measured from the origin,
/// so a late tick does not drag the next one, and nothing is waited when
/// already late.
pub fn wall_wait_nanos(target_nanos: u64, elapsed_nanos: u128) -> (r: u128)
    ensures
        r == if target_nanos > elapsed_nanos { target_nanos - elapsed_nanos } else { 0 },
{
    if (target_nanos as u128) > elapsed_nanos {
        target_nanos as u128 - elapsed_nanos
    } else {
        0
    }
}

/// How far a wall clock runs behind real time, in nanoseconds: the time
/// elapsed since the origin past the current instant, or zero when ahead.
pub fn wall_lag_nanos(now: SimTime, elapsed_nanos: u128) -> (r: u128)
    ensures
        r == if elapsed_nanos > now.nanos() { elapsed_nanos - now.nanos() } else { 0 },
{
    let target = now.as_nanos() as u128;
    if elapsed_nanos > target {
        elapsed_nanos - target
    } else {
        0
    }
}

} // verus!
