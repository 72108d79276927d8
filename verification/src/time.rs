//! Simulation time.
use vstd::prelude::*;
use std::ops::{Add, AddAssign, Sub};
use std::time::Duration;

verus! {

/// The whole nanoseconds of a `Duration` (`Duration::as_nanos`).
pub uninterp spec fn duration_nanos(d: Duration) -> nat;

/// `Duration::as_nanos`: the whole nanoseconds the duration holds.
#[verifier::external_body]
pub(crate) fn duration_as_nanos(d: Duration) -> (r: u128)
    ensures
        r == duration_nanos(d),
{
    d.as_nanos()
}

/// `Duration::from_nanos`: a duration of exactly `n` nanoseconds.
#[verifier::external_body]
fn duration_from_nanos(n: u64) -> (d: Duration)
    ensures
        duration_nanos(d) == n,
{
    Duration::from_nanos(n)
}

/// An instant of the simulation, in nanoseconds since start.
///
/// A newtype over `u64`: it takes the room of a `u64`, but cannot be mixed up
/// with any other number.
#[derive(Debug, Clone, Copy, PartialEq, Eq, PartialOrd, Ord, Hash, Default, Structural)]
pub struct SimTime {
    nanos: u64,
}

impl SimTime {
    /// The instant zero: the start of the simulation.
    pub fn zero() -> (r: Self)
        ensures
            r.nanos() == 0,
    {
        SimTime { nanos: 0 }
    }

    /// The nanoseconds since start.
    pub closed spec fn nanos(self) -> u64 {
        self.nanos
    }

    /// An instant from nanoseconds.
    pub fn from_nanos(nanos: u64) -> (r: Self)
        ensures
            r.nanos() == nanos,
    {
        SimTime { nanos }
    }

    /// The nanoseconds elapsed since start.
    pub fn as_nanos(self) -> (r: u64)
        ensures
            r == self.nanos(),
    {
        self.nanos
    }

    /// The instant `n` nanoseconds later.
    pub fn plus_nanos(self, n: u64) -> (r: Self)
        requires
            self.nanos() + n <= u64::MAX,
        ensures
            r.nanos() == self.nanos() + n,
    {
        SimTime { nanos: self.nanos + n }
    }

    /// The nanoseconds from `earlier` to `self`, or zero when `earlier` is
    /// later: the difference saturates instead of overflowing.
    pub fn nanos_since(self, earlier: SimTime) -> (r: u64)
        ensures
            r == if self.nanos() >= earlier.nanos() { self.nanos() - earlier.nanos() } else { 0 },
    {
        self.nanos.saturating_sub(earlier.nanos)
    }

    /// Instants are ordered as their nanoseconds.
    pub fn is_before(self, other: SimTime) -> (r: bool)
        ensures
            r == (self.nanos() < other.nanos()),
    {
        self.nanos < other.nanos
    }
}

/// `SimTime + Duration = SimTime`: moving forward in time. A duration that
/// does not fit, or an instant past the last representable nanosecond, is a
/// programming error and is excluded by the precondition.
impl Add<Duration> for SimTime {
    type Output = SimTime;

    fn add(self, rhs: Duration) -> (r: SimTime)
        ensures
            r.nanos() == self.nanos() + duration_nanos(rhs),
    {
        let d = duration_as_nanos(rhs);
        SimTime { nanos: self.nanos + d as u64 }
    }
}

impl vstd::std_specs::ops::AddSpecImpl<Duration> for SimTime {
    open spec fn obeys_add_spec() -> bool {
        false
    }

    open spec fn add_req(self, rhs: Duration) -> bool {
        self.nanos() + duration_nanos(rhs) <= u64::MAX
    }

    open spec fn add_spec(self, rhs: Duration) -> SimTime {
        self
    }
}

/// `t += dt`. An instant that would pass the last representable nanosecond
/// is left as it was.
impl AddAssign<Duration> for SimTime {
    fn add_assign(&mut self, rhs: Duration)
        ensures
            old(self).nanos() + duration_nanos(rhs) <= u64::MAX ==> final(self).nanos() == old(self).nanos()
                + duration_nanos(rhs),
            old(self).nanos() + duration_nanos(rhs) > u64::MAX ==> *final(self) == *old(self),
    {
        let d = duration_as_nanos(rhs);
        if d <= (u64::MAX - self.nanos) as u128 {
            self.nanos = self.nanos + d as u64;
        }
    }
}

/// `SimTime - SimTime = Duration`: the difference of two instants is an
/// interval, not an instant. It saturates at zero when subtracted the wrong
/// way round.
impl Sub for SimTime {
    type Output = Duration;

    fn sub(self, rhs: SimTime) -> (r: Duration)
        ensures
            duration_nanos(r) == if self.nanos() >= rhs.nanos() { self.nanos() - rhs.nanos() } else { 0 },
    {
        duration_from_nanos(self.nanos.saturating_sub(rhs.nanos))
    }
}

impl vstd::std_specs::ops::SubSpecImpl for SimTime {
    open spec fn obeys_sub_spec() -> bool {
        false
    }

    open spec fn sub_req(self, rhs: SimTime) -> bool {
        true
    }

    open spec fn sub_spec(self, rhs: SimTime) -> Duration {
        arbitrary()
    }
}

} // verus!
