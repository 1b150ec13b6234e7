//! The bookkeeping of a clock that polls a hardware timer: a counter that
//! runs down from a reload value and starts again, read without interrupts.
//!
//! Reading and programming the timer is the caller's part. This file holds
//! what is computed from the readings: the reload value for a tick
//! frequency, the ticks that have gone by between two readings, and the
//! instant that a count of ticks stands for.

use vstd::prelude::*;
use crate::time::VInstant;

verus! {

/// The reload value that makes a timer clocked at `sysclk_hz` start again
/// `tick_hz` times a second: one less than the cycles of a tick, and zero
/// where a tick is no longer than a cycle.
pub open spec fn reload_for(sysclk_hz: u32, tick_hz: u32) -> u32 {
    if sysclk_hz / tick_hz == 0 {
        0
    } else {
        (sysclk_hz / tick_hz - 1) as u32
    }
}

/// The cycles by which a timer that read `last` and now reads `cur` has run
/// down, where it runs down from `reload` and has started again at most
/// once in between.
pub open spec fn cycles_between(last: u32, cur: u32, reload: u32) -> int {
    if last >= cur {
        last - cur
    } else {
        last + reload + 1 - cur
    }
}

/// What a polling clock remembers between two readings of its timer.
pub struct SystickClockState {
    reload: u32,
    last_cvr: u32,
    ticks_accum: u64,
}

impl SystickClockState {
    /// The reload value that the timer was programmed with; zero before.
    pub closed spec fn reload(&self) -> u32 {
        self.reload
    }

    /// The last reading of the timer.
    pub closed spec fn last_reading(&self) -> u32 {
        self.last_cvr
    }

    /// The ticks counted so far.
    pub closed spec fn ticks(&self) -> u64 {
        self.ticks_accum
    }

    #[verifier::type_invariant]
    spec fn reload_has_a_successor(&self) -> bool {
        self.reload < u32::MAX
    }

    /// The state before the timer is programmed.
    pub fn new() -> (state: SystickClockState)
        ensures
            state.reload() == 0,
            state.last_reading() == 0,
            state.ticks() == 0,
    {
        SystickClockState { reload: 0, last_cvr: 0, ticks_accum: 0 }
    }

    /// The reload value on record.
    pub fn reload_value(&self) -> (reload: u32)
        ensures
            reload == self.reload(),
            reload < u32::MAX,
    {
        proof {
            use_type_invariant(self);
        }
        self.reload
    }

    /// The last reading on record.
    pub fn last_cvr(&self) -> (cvr: u32)
        ensures
            cvr == self.last_reading(),
    {
        self.last_cvr
    }

    /// Decides whether the timer has to be programmed. Where no reload value
    /// is on record it returns the one for the two frequencies, puts it on
    /// record and starts counting ticks from zero: the caller programs the
    /// timer with it and hands the first reading to
    /// [`SystickClockState::record_reading`]. Where one is on record it
    /// returns nothing and changes nothing.
    pub fn init_if_needed(&mut self, sysclk_hz: u32, tick_hz: u32) -> (program: Option<u32>)
        requires
            tick_hz != 0,
        ensures
            old(self).reload() != 0 ==> program is None && *final(self) == *old(self),
            old(self).reload() == 0 ==> {
                &&& program == Some(reload_for(sysclk_hz, tick_hz))
                &&& final(self).reload() == reload_for(sysclk_hz, tick_hz)
                &&& final(self).last_reading() == old(self).last_reading()
                &&& final(self).ticks() == 0
            },
    {
        if self.reload != 0 {
            return None;
        }
        let cycles: u32 = sysclk_hz / tick_hz;
        let reload: u32 = if cycles == 0 { 0 } else { cycles - 1 };
        self.reload = reload;
        self.ticks_accum = 0;
        Some(reload)
    }

    /// Puts a reading of the timer on record without counting ticks.
    pub fn record_reading(&mut self, cvr: u32)
        ensures
            final(self).reload() == old(self).reload(),
            final(self).last_reading() == cvr,
            final(self).ticks() == old(self).ticks(),
    {
        proof {
            use_type_invariant(&*self);
        }
        self.last_cvr = cvr;
    }

    /// Counts the ticks between the last reading and the reading `cur`, and
    /// returns the ticks counted so far, which go round after 2^64. A tick is
    /// counted for every full run of the timer that the cycles between the
    /// two readings make up. The reading must be one that the timer can
    /// show: not further above the last one than a full run.
    pub fn elapsed_ticks(&mut self, cur: u32) -> (ticks: u64)
        requires
            cur <= old(self).last_reading() + old(self).reload() + 1,
        ensures
            final(self).reload() == old(self).reload(),
            final(self).last_reading() == cur,
            ticks == final(self).ticks(),
            ticks == (old(self).ticks() + cycles_between(
                old(self).last_reading(),
                cur,
                old(self).reload(),
            ) / (old(self).reload() + 1)) % 0x1_0000_0000_0000_0000,
    {
        proof {
            use_type_invariant(&*self);
        }
        let last: u32 = self.last_cvr;
        let run: u64 = self.reload as u64 + 1;
        let delta: u64 = if last >= cur {
            (last - cur) as u64
        } else {
            (last as u64) + run - (cur as u64)
        };
        let passed: u64 = delta / run;
        self.ticks_accum = self.ticks_accum.wrapping_add(passed);
        self.last_cvr = cur;
        self.ticks_accum
    }
}

/// The nanoseconds of one tick at `tick_hz` ticks a second, rounded down.
pub fn tick_ns(tick_hz: u32) -> (ns: u64)
    requires
        tick_hz != 0,
    ensures
        ns == 1_000_000_000int / (tick_hz as int),
{
    1_000_000_000u64 / (tick_hz as u64)
}

/// The instant that `ticks` ticks of `tick_ns` nanoseconds each stand for,
/// clamped at the last instant.
pub fn instant_of_ticks(ticks: u64, tick_ns: u64) -> (t: VInstant)
    ensures
        t.0 == if ticks * tick_ns > u64::MAX {
            u64::MAX as int
        } else {
            ticks * tick_ns
        },
{
    match ticks.checked_mul(tick_ns) {
        Some(ns) => VInstant(ns),
        None => VInstant(u64::MAX),
    }
}

} // verus!
