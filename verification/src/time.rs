//! Virtual instants and durations, both counted in nanoseconds.
//!
//! Instants live on a ring of 2^64 nanoseconds: adding a duration to an
//! instant, and taking the distance between two instants, wrap silently.
//! Durations are magnitudes: building one from a coarser unit, and adding or
//! subtracting two of them, clamp at the ends of the range instead.

use vstd::prelude::*;
use vstd::std_specs::convert::FromSpecImpl;
use vstd::std_specs::ops::{AddSpecImpl, SubSpecImpl};

verus! {

/// Nanoseconds in one second.
pub const NANOS_PER_SEC: u64 = 1_000_000_000;

/// Nanoseconds in one millisecond.
pub const NANOS_PER_MILLI: u64 = 1_000_000;

/// Nanoseconds in one microsecond.
pub const NANOS_PER_MICRO: u64 = 1_000;

/// A point of virtual time: nanoseconds since an epoch that the clock chooses.
#[derive(Clone, Copy, Debug, PartialEq, Eq, Structural, PartialOrd, Ord, Hash)]
pub struct VInstant(pub u64);

/// A span of virtual time in nanoseconds.
#[derive(Clone, Copy, Debug, PartialEq, Eq, Structural, Hash)]
pub struct VDuration(pub u64);

/// `count` units of `unit` nanoseconds each, clamped to what a duration can hold.
pub open spec fn saturating_nanos(count: int, unit: int) -> u64 {
    if count * unit > u64::MAX {
        u64::MAX
    } else {
        (count * unit) as u64
    }
}

/// The whole seconds that a `core::time::Duration` holds.
pub uninterp spec fn std_duration_secs(d: core::time::Duration) -> u64;

/// The nanoseconds that a `core::time::Duration` holds beyond its whole seconds.
pub uninterp spec fn std_duration_subsec_nanos(d: core::time::Duration) -> u32;

/// `Duration::as_secs` hands out the whole seconds of the duration.
pub assume_specification[ core::time::Duration::as_secs ](d: &core::time::Duration) -> (secs: u64)
    ensures
        secs == std_duration_secs(*d),
;

/// `Duration::subsec_nanos` hands out the fractional part of the duration in
/// nanoseconds, which is always below one second.
pub assume_specification[ core::time::Duration::subsec_nanos ](d: &core::time::Duration) -> (nanos:
    u32)
    ensures
        nanos == std_duration_subsec_nanos(*d),
        nanos < 1_000_000_000,
;

impl VDuration {
    /// The length of the span as a mathematical integer.
    pub open spec fn nanos(self) -> int {
        self.0 as int
    }

    /// The sum of two spans, clamped at the longest span.
    pub open spec fn plus(self, other: VDuration) -> VDuration {
        if self.0 + other.0 > u64::MAX {
            VDuration(u64::MAX)
        } else {
            VDuration((self.0 + other.0) as u64)
        }
    }

    /// The difference of two spans, clamped at the empty span.
    pub open spec fn minus(self, other: VDuration) -> VDuration {
        if self.0 < other.0 {
            VDuration(0)
        } else {
            VDuration((self.0 - other.0) as u64)
        }
    }

    /// The span that a `core::time::Duration` stands for, clamped at the longest span.
    pub open spec fn of_std(d: core::time::Duration) -> VDuration {
        let total = std_duration_secs(d) * 1_000_000_000 + std_duration_subsec_nanos(d);
        if total > u64::MAX {
            VDuration(u64::MAX)
        } else {
            VDuration(total as u64)
        }
    }

    /// A span of `s` whole seconds; the longest span if that many nanoseconds do not fit.
    pub fn from_secs(s: u64) -> (d: VDuration)
        ensures
            d.0 == saturating_nanos(s as int, 1_000_000_000),
    {
        match s.checked_mul(NANOS_PER_SEC) {
            Some(ns) => VDuration(ns),
            None => VDuration(u64::MAX),
        }
    }

    /// A span of `ms` whole milliseconds; the longest span if that many nanoseconds do not fit.
    pub fn from_millis(ms: u64) -> (d: VDuration)
        ensures
            d.0 == saturating_nanos(ms as int, 1_000_000),
    {
        match ms.checked_mul(NANOS_PER_MILLI) {
            Some(ns) => VDuration(ns),
            None => VDuration(u64::MAX),
        }
    }

    /// A span of `us` whole microseconds; the longest span if that many nanoseconds do not fit.
    pub fn from_micros(us: u64) -> (d: VDuration)
        ensures
            d.0 == saturating_nanos(us as int, 1_000),
    {
        match us.checked_mul(NANOS_PER_MICRO) {
            Some(ns) => VDuration(ns),
            None => VDuration(u64::MAX),
        }
    }

    /// A span of exactly `ns` nanoseconds.
    pub fn from_nanos(ns: u64) -> (d: VDuration)
        ensures
            d.0 == ns,
    {
        VDuration(ns)
    }

    /// The length of the span in nanoseconds.
    pub fn as_nanos(self) -> (ns: u64)
        ensures
            ns == self.0,
    {
        self.0
    }
}

impl VInstant {
    /// The position of the instant on the ring, as a mathematical integer.
    pub open spec fn nanos(self) -> int {
        self.0 as int
    }

    /// The instant `d` after this one, going round the ring of 2^64 nanoseconds.
    pub open spec fn plus(self, d: VDuration) -> VInstant {
        VInstant(((self.0 + d.0) % 0x1_0000_0000_0000_0000) as u64)
    }

    /// The way forward round the ring from `earlier` to this instant.
    pub open spec fn since(self, earlier: VInstant) -> VDuration {
        VDuration(((self.0 - earlier.0) % 0x1_0000_0000_0000_0000) as u64)
    }

    /// Nanoseconds from the epoch to this instant.
    pub fn as_nanos(self) -> (ns: u64)
        ensures
            ns == self.0,
    {
        self.0
    }
}

impl Default for VInstant {
    /// The epoch itself.
    fn default() -> (t: VInstant)
        ensures
            t.0 == 0,
    {
        VInstant(0)
    }
}

impl Default for VDuration {
    /// The empty span.
    fn default() -> (d: VDuration)
        ensures
            d.0 == 0,
    {
        VDuration(0)
    }
}

impl core::ops::Add<VDuration> for VInstant {
    type Output = VInstant;

    /// Moves the instant forward by `rhs`, wrapping round the ring.
    fn add(self, rhs: VDuration) -> (t: VInstant)
        ensures
            t == self.plus(rhs),
    {
        let t = VInstant(self.0.wrapping_add(rhs.0));
        assert(t == self.plus(rhs));
        t
    }
}

impl AddSpecImpl<VDuration> for VInstant {
    open spec fn obeys_add_spec() -> bool {
        true
    }

    open spec fn add_req(self, rhs: VDuration) -> bool {
        true
    }

    open spec fn add_spec(self, rhs: VDuration) -> VInstant {
        self.plus(rhs)
    }
}

impl core::ops::AddAssign<VDuration> for VInstant {
    /// Moves the instant forward by `rhs` in place, wrapping round the ring.
    fn add_assign(&mut self, rhs: VDuration)
        ensures
            *final(self) == old(self).plus(rhs),
    {
        self.0 = self.0.wrapping_add(rhs.0);
    }
}

impl core::ops::Sub<VInstant> for VInstant {
    type Output = VDuration;

    /// The way forward round the ring from `rhs` to this instant.
    fn sub(self, rhs: VInstant) -> (d: VDuration)
        ensures
            d == self.since(rhs),
    {
        let d = VDuration(self.0.wrapping_sub(rhs.0));
        assert(d == self.since(rhs));
        d
    }
}

impl SubSpecImpl<VInstant> for VInstant {
    open spec fn obeys_sub_spec() -> bool {
        true
    }

    open spec fn sub_req(self, rhs: VInstant) -> bool {
        true
    }

    open spec fn sub_spec(self, rhs: VInstant) -> VDuration {
        self.since(rhs)
    }
}

impl core::ops::Add<VDuration> for VDuration {
    type Output = VDuration;

    /// The sum of the two spans, clamped at the longest span.
    fn add(self, rhs: VDuration) -> (d: VDuration)
        ensures
            d == self.plus(rhs),
    {
        VDuration(self.0.saturating_add(rhs.0))
    }
}

impl AddSpecImpl<VDuration> for VDuration {
    open spec fn obeys_add_spec() -> bool {
        true
    }

    open spec fn add_req(self, rhs: VDuration) -> bool {
        true
    }

    open spec fn add_spec(self, rhs: VDuration) -> VDuration {
        self.plus(rhs)
    }
}

impl core::ops::Sub<VDuration> for VDuration {
    type Output = VDuration;

    /// The difference of the two spans, clamped at the empty span.
    fn sub(self, rhs: VDuration) -> (d: VDuration)
        ensures
            d == self.minus(rhs),
    {
        VDuration(self.0.saturating_sub(rhs.0))
    }
}

impl SubSpecImpl<VDuration> for VDuration {
    open spec fn obeys_sub_spec() -> bool {
        true
    }

    open spec fn sub_req(self, rhs: VDuration) -> bool {
        true
    }

    open spec fn sub_spec(self, rhs: VDuration) -> VDuration {
        self.minus(rhs)
    }
}

impl core::ops::AddAssign<VDuration> for VDuration {
    /// Lengthens the span by `rhs` in place, clamping at the longest span.
    fn add_assign(&mut self, rhs: VDuration)
        ensures
            *final(self) == old(self).plus(rhs),
    {
        self.0 = self.0.saturating_add(rhs.0);
    }
}

impl From<core::time::Duration> for VDuration {
    /// The span of a `core::time::Duration`, clamped at the longest span.
    fn from(d: core::time::Duration) -> (v: VDuration)
        ensures
            v == VDuration::of_std(d),
    {
        let secs: u64 = d.as_secs();
        let sub: u32 = d.subsec_nanos();
        let v = match secs.checked_mul(NANOS_PER_SEC) {
            Some(ns) => VDuration(ns.saturating_add(sub as u64)),
            None => VDuration(u64::MAX),
        };
        assert(v == VDuration::of_std(d));
        v
    }
}

impl FromSpecImpl<core::time::Duration> for VDuration {
    open spec fn obeys_from_spec() -> bool {
        true
    }

    open spec fn from_spec(d: core::time::Duration) -> VDuration {
        VDuration::of_std(d)
    }
}

impl From<VDuration> for VInstant {
    /// The instant that lies `d` after the epoch.
    fn from(d: VDuration) -> (t: VInstant)
        ensures
            t.0 == d.0,
    {
        VInstant(d.0)
    }
}

impl FromSpecImpl<VDuration> for VInstant {
    open spec fn obeys_from_spec() -> bool {
        true
    }

    open spec fn from_spec(d: VDuration) -> VInstant {
        VInstant(d.0)
    }
}

/// Going forward by a span and measuring back from where one started gives
/// the span again, wherever on the ring one starts and however long the span.
pub proof fn law_add_then_since(start: VInstant, d: VDuration)
    ensures
        start.plus(d).since(start) == d,
{
}

/// A count of units whose nanoseconds fit in 64 bits is kept exactly; any
/// larger count gives the longest span, never a small wrapped one.
pub proof fn law_unit_construction(count: u64, unit: u64)
    ensures
        count * unit <= u64::MAX ==> saturating_nanos(count as int, unit as int) == count * unit,
        count * unit > u64::MAX ==> saturating_nanos(count as int, unit as int) == u64::MAX,
{
}

/// A span built from whole seconds that did not saturate survives the round
/// trip through an instant: `(start + span) - start` is that many seconds.
pub proof fn law_round_trip_secs(start: VInstant, s: u64)
    requires
        s * 1_000_000_000 <= u64::MAX,
    ensures
        start.plus(VDuration(saturating_nanos(s as int, 1_000_000_000))).since(start).0 == s
            * 1_000_000_000,
{
    law_add_then_since(start, VDuration(saturating_nanos(s as int, 1_000_000_000)));
}

} // verus!
