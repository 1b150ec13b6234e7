//! A clock that follows the host's monotonic timer.
//!
//! Its readings come from outside the program, so it is not a driven clock:
//! nothing is promised of what it reports, and it ignores requests to move.

use vstd::prelude::*;
use crate::clock::Clock;
use crate::time::{VDuration, VInstant};

verus! {

/// `std::time::Instant`, a reading of the host's monotonic timer.
#[verifier::external_type_specification]
#[verifier::external_body]
pub struct ExInstant(std::time::Instant);

/// `Instant::now`: a reading of the host's timer. Nothing is claimed of it.
#[verifier::external_body]
fn host_timer_read() -> (start: std::time::Instant) {
    std::time::Instant::now()
}

/// `Instant::elapsed`: the host time that has passed since `start` was read.
/// Nothing is claimed of it.
#[verifier::external_body]
fn host_timer_elapsed(start: &std::time::Instant) -> (passed: core::time::Duration) {
    start.elapsed()
}

/// A clock backed by the host's monotonic timer.
pub struct StdClock {
    start_instant: std::time::Instant,
    start_virtual: VInstant,
}

impl StdClock {
    /// The virtual instant that stands for the moment the clock was made.
    pub closed spec fn origin(&self) -> VInstant {
        self.start_virtual
    }

    /// A clock whose virtual time starts at the epoch now.
    pub fn new() -> (c: StdClock)
        ensures
            c.origin() == VInstant(0),
            !c.driven(),
    {
        StdClock { start_instant: host_timer_read(), start_virtual: VInstant(0) }
    }

    /// The origin plus the host time that has passed since the clock was
    /// made, clamped to the longest span and then wrapped round the ring.
    /// How much time has passed is the host's to say.
    pub fn read(&self) -> (t: VInstant)
        ensures
            exists|passed: core::time::Duration|
                t == self.origin().plus(#[trigger] VDuration::of_std(passed)),
    {
        let passed = host_timer_elapsed(&self.start_instant);
        let t = self.start_virtual + VDuration::from(passed);
        assert(t == self.origin().plus(VDuration::of_std(passed)));
        t
    }
}

impl Clock for StdClock {
    open spec fn instant(&self) -> VInstant {
        self.origin()
    }

    open spec fn driven(&self) -> bool {
        false
    }

    /// What [`StdClock::read`] gives.
    fn now(&self) -> (t: VInstant)
        ensures
            exists|passed: core::time::Duration|
                t == self.origin().plus(#[trigger] VDuration::of_std(passed)),
    {
        self.read()
    }

    /// Does nothing: the host's timer cannot be moved.
    fn advance(&mut self, by: VDuration)
        ensures
            final(self).origin() == old(self).origin(),
    {
    }
}

} // verus!
