//! Clocks that need no driving: a counter in software that the program
//! ticks, the host's timer, and a clock that is one or the other.

use vstd::prelude::*;
use crate::clock::Clock;
use crate::host::StdClock;
use crate::time::{VDuration, VInstant};

verus! {

/// A clock that reads a 32-bit counter of nanoseconds. The counter moves
/// when the program ticks it and goes round after 2^32 nanoseconds; requests
/// to advance the clock are ignored.
pub struct SoftClock {
    ns: u32,
}

impl SoftClock {
    /// The nanoseconds that the counter holds.
    pub closed spec fn count(&self) -> u32 {
        self.ns
    }

    /// A clock whose counter is at zero.
    pub fn new() -> (c: SoftClock)
        ensures
            c.count() == 0,
    {
        SoftClock { ns: 0 }
    }

    /// Adds `ns` nanoseconds to the counter, going round after 2^32.
    pub fn add_ns(&mut self, ns: u32)
        ensures
            final(self).count() == (old(self).count() + ns) % 0x1_0000_0000,
    {
        self.ns = self.ns.wrapping_add(ns);
    }

    /// The nanoseconds that the counter holds.
    pub fn load_ns(&self) -> (ns: u32)
        ensures
            ns == self.count(),
    {
        self.ns
    }

    /// Sets the counter back to zero.
    pub fn reset_ns(&mut self)
        ensures
            final(self).count() == 0,
    {
        self.ns = 0;
    }

    /// Sets the counter to `ns` nanoseconds.
    pub fn set_ns(&mut self, ns: u32)
        ensures
            final(self).count() == ns,
    {
        self.ns = ns;
    }

    /// Ticks the counter by `ns` nanoseconds, going round after 2^32.
    pub fn tick_ns(&mut self, ns: u32)
        ensures
            final(self).count() == (old(self).count() + ns) % 0x1_0000_0000,
    {
        self.add_ns(ns);
    }

    /// Ticks the counter by `ms` milliseconds, or by the most that 32 bits
    /// hold where that many nanoseconds do not fit, going round after 2^32.
    pub fn tick_ms(&mut self, ms: u32)
        ensures
            final(self).count() == (old(self).count() + if ms * 1_000_000 > u32::MAX {
                u32::MAX as int
            } else {
                ms * 1_000_000
            }) % 0x1_0000_0000,
    {
        let ns: u32 = match ms.checked_mul(1_000_000) {
            Some(ns) => ns,
            None => u32::MAX,
        };
        self.add_ns(ns);
    }
}

impl Clock for SoftClock {
    open spec fn instant(&self) -> VInstant {
        VInstant(self.count() as u64)
    }

    open spec fn driven(&self) -> bool {
        false
    }

    /// The counter, as an instant.
    fn now(&self) -> (t: VInstant)
        ensures
            t == self.instant(),
    {
        VInstant(self.ns as u64)
    }

    /// Does nothing: only ticks move the counter.
    fn advance(&mut self, by: VDuration)
        ensures
            final(self).count() == old(self).count(),
    {
    }
}

/// Where an [`AutoClock`] takes its time from.
pub enum Backend {
    /// A counter in software.
    Soft(SoftClock),
    /// The host's monotonic timer.
    Std(StdClock),
}

/// A clock that works without configuration: it reads the backend it was
/// made with.
pub struct AutoClock(Backend);

impl AutoClock {
    /// Where the clock takes its time from.
    pub closed spec fn backend(&self) -> Backend {
        self.0
    }

    /// A clock over a software counter at zero.
    pub fn new() -> (c: AutoClock)
        ensures
            c.backend() matches Backend::Soft(soft) && soft.count() == 0,
    {
        AutoClock(Backend::Soft(SoftClock::new()))
    }

    /// A clock over the given software counter.
    pub fn from_soft(soft: SoftClock) -> (c: AutoClock)
        ensures
            c.backend() == Backend::Soft(soft),
    {
        AutoClock(Backend::Soft(soft))
    }

    /// A clock over the host's timer.
    pub fn from_std(host: StdClock) -> (c: AutoClock)
        ensures
            c.backend() == Backend::Std(host),
    {
        AutoClock(Backend::Std(host))
    }

    /// The software counter behind the clock, to tick it; nothing where the
    /// clock follows the host's timer.
    pub fn soft_mut(&mut self) -> (soft: Option<&mut SoftClock>)
        ensures
            match soft {
                Some(counter) => {
                    &&& old(self).backend() == Backend::Soft(*counter)
                    &&& final(self).backend() == Backend::Soft(*final(counter))
                },
                None => old(self).backend() is Std && final(self).backend() == old(self).backend(),
            },
    {
        match &mut self.0 {
            Backend::Soft(counter) => Some(counter),
            Backend::Std(_) => None,
        }
    }
}

impl Clock for AutoClock {
    open spec fn instant(&self) -> VInstant {
        match self.backend() {
            Backend::Soft(soft) => VInstant(soft.count() as u64),
            Backend::Std(host) => host.origin(),
        }
    }

    open spec fn driven(&self) -> bool {
        false
    }

    /// What the backend reads.
    fn now(&self) -> (t: VInstant)
        ensures
            self.backend() is Soft ==> t == self.instant(),
    {
        match &self.0 {
            Backend::Soft(soft) => VInstant(soft.load_ns() as u64),
            Backend::Std(host) => host.read(),
        }
    }

    /// Does nothing: neither backend can be moved.
    fn advance(&mut self, by: VDuration)
        ensures
            final(self).backend() == old(self).backend(),
    {
    }
}

} // verus!
