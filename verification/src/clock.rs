//! The clock capability, and the manually driven clock.
//!
//! A clock reports an instant and can be asked to move forward. What a clock
//! promises depends on where its time comes from. A *driven* clock owns its
//! time: it reports the instant it holds, and moving it forward by a span
//! changes that instant by exactly the span. A clock that follows a timer
//! outside the program promises neither: code that is generic over clocks
//! states for driven clocks what exactly happens, and for the others only
//! what holds whatever they report.

use vstd::prelude::*;
use crate::time::{VDuration, VInstant};

verus! {

/// A source of virtual time.
pub trait Clock {
    /// The instant that the clock holds. It is what `now` reports while the
    /// clock is driven, and carries no meaning otherwise.
    open spec fn instant(&self) -> VInstant {
        VInstant(0)
    }

    /// Whether the clock's time is its own: read by `now`, changed only by
    /// `advance`, and by exactly the span asked for. A clock is not driven
    /// unless it says so.
    open spec fn driven(&self) -> bool {
        false
    }

    /// The current virtual instant.
    fn now(&self) -> (t: VInstant)
        ensures
            self.driven() ==> t == self.instant(),
    ;

    /// Asks the clock to move forward by `by`. A driven clock does so
    /// exactly, wrapping round the ring of instants; another clock may ignore
    /// the request.
    fn advance(&mut self, by: VDuration)
        ensures
            old(self).driven() ==> final(self).driven(),
            old(self).driven() ==> final(self).instant() == old(self).instant().plus(by),
    ;
}

/// A clock that stands still until it is told to move.
#[derive(Debug)]
pub struct ManualClock {
    now: VInstant,
}

impl ManualClock {
    /// The instant at which the clock stands.
    pub closed spec fn reading(&self) -> VInstant {
        self.now
    }

    /// A clock standing at the epoch.
    pub fn new() -> (c: ManualClock)
        ensures
            c.reading() == VInstant(0),
    {
        ManualClock { now: VInstant(0) }
    }

    /// The instant at which the clock stands, read without going through the
    /// clock capability.
    pub fn now_strict(&self) -> (t: VInstant)
        ensures
            t == self.reading(),
    {
        self.now
    }
}

impl Clone for ManualClock {
    /// A second clock standing at the same instant.
    fn clone(&self) -> (c: ManualClock)
        ensures
            c == *self,
    {
        ManualClock { now: self.now }
    }
}

impl Default for ManualClock {
    /// A clock standing at the epoch.
    fn default() -> (c: ManualClock)
        ensures
            c.reading() == VInstant(0),
    {
        ManualClock { now: VInstant(0) }
    }
}

impl Clock for ManualClock {
    open spec fn instant(&self) -> VInstant {
        self.reading()
    }

    open spec fn driven(&self) -> bool {
        true
    }

    fn now(&self) -> (t: VInstant) {
        self.now
    }

    fn advance(&mut self, by: VDuration) {
        self.now = self.now + by;
    }
}

} // verus!
