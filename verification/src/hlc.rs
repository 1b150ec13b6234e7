//! Hybrid logical clock: timestamps that follow physical time when it moves
//! and a logical counter when it does not, so that every timestamp a node
//! issues or accepts lies after the ones before it.
//!
//! The rules of the clock are two functions on timestamps, [`KairosTs::tick`]
//! and [`KairosTs::merge`], which take the physical reading as an argument.
//! [`KairosHlc`] owns a clock and the latest timestamp, reads the clock and
//! applies them.

use vstd::prelude::*;
use vstd::std_specs::cmp::PartialOrdSpecImpl;
use vstd::std_specs::convert::FromSpecImpl;
use core::cmp::Ordering;
use crate::clock::Clock;

verus! {

/// A hybrid logical timestamp: physical nanoseconds, a logical counter that
/// orders timestamps of one physical instant, and the node that issued it.
#[derive(Clone, Copy, Debug, PartialEq, Eq, Structural, Ord, Hash)]
pub struct KairosTs {
    /// Nanoseconds since the epoch of the clock that was read.
    pub phys_ns: u64,
    /// Logical counter.
    pub log: u32,
    /// Issuing node; it breaks ties and carries no causality.
    pub node: u32,
}

/// The compact record of a timestamp, for messages and storage.
#[derive(Clone, Copy, Debug, PartialEq, Eq, Structural)]
pub struct KairosTs16 {
    /// Nanoseconds since the epoch of the clock that was read.
    pub phys_ns: u64,
    /// Logical counter.
    pub log: u32,
    /// Issuing node.
    pub node: u32,
}

/// The logical counter after `log`, starting again from zero after the last one.
pub open spec fn next_log(log: u32) -> u32 {
    if log == u32::MAX {
        0
    } else {
        (log + 1) as u32
    }
}

impl KairosTs {
    /// Strict order of timestamps: by physical time, then by logical
    /// counter, then by node.
    pub open spec fn precedes(self, other: KairosTs) -> bool {
        ||| self.phys_ns < other.phys_ns
        ||| self.phys_ns == other.phys_ns && self.log < other.log
        ||| self.phys_ns == other.phys_ns && self.log == other.log && self.node < other.node
    }

    /// The first timestamp of a clock that resumes at physical time
    /// `physical` after having persisted `watermark`.
    pub open spec fn resumed(physical: u64, watermark: u64, node: u32) -> KairosTs {
        KairosTs { phys_ns: if physical >= watermark { physical } else { watermark }, log: 0, node }
    }

    /// The timestamp that follows `self` on its own node when the clock reads
    /// `physical`: the reading with a fresh counter if time has moved on,
    /// else the same physical time with the next counter.
    pub open spec fn ticked(self, physical: u64) -> KairosTs {
        if physical > self.phys_ns {
            KairosTs { phys_ns: physical, log: 0, node: self.node }
        } else {
            KairosTs { phys_ns: self.phys_ns, log: next_log(self.log), node: self.node }
        }
    }

    /// Whether a tick at reading `physical` runs the logical counter past its
    /// last value.
    pub open spec fn tick_wraps(self, physical: u64) -> bool {
        physical <= self.phys_ns && self.log == u32::MAX
    }

    /// The later of the three physical times that a merge sees.
    pub open spec fn merged_phys(self, incoming: KairosTs, physical: u64) -> u64 {
        let seen = if physical >= incoming.phys_ns { physical } else { incoming.phys_ns };
        if self.phys_ns >= seen { self.phys_ns } else { seen }
    }

    /// The timestamp that follows `self` on its own node when `incoming`
    /// arrives and the clock reads `physical`.
    pub open spec fn merged(self, incoming: KairosTs, physical: u64) -> KairosTs {
        let phys = self.merged_phys(incoming, physical);
        let log = if phys == self.phys_ns && phys == incoming.phys_ns {
            next_log(if self.log >= incoming.log { self.log } else { incoming.log })
        } else if phys == self.phys_ns {
            next_log(self.log)
        } else if phys == incoming.phys_ns {
            next_log(incoming.log)
        } else {
            0
        };
        KairosTs { phys_ns: phys, log, node: self.node }
    }

    /// The compact record of the timestamp, field by field.
    pub open spec fn compact(self) -> KairosTs16 {
        KairosTs16 { phys_ns: self.phys_ns, log: self.log, node: self.node }
    }

    /// Whether a merge runs the logical counter past its last value.
    pub open spec fn merge_wraps(self, incoming: KairosTs, physical: u64) -> bool {
        let phys = self.merged_phys(incoming, physical);
        ||| phys == self.phys_ns && self.log == u32::MAX
        ||| phys == incoming.phys_ns && incoming.log == u32::MAX
    }

    /// The first timestamp of a clock that resumes at reading `physical`
    /// after having persisted `watermark`.
    pub fn resume(physical: u64, watermark: u64, node: u32) -> (ts: KairosTs)
        ensures
            ts == KairosTs::resumed(physical, watermark, node),
    {
        let base: u64 = if physical >= watermark { physical } else { watermark };
        KairosTs { phys_ns: base, log: 0, node }
    }

    /// Local tick: the timestamp after `self` when the clock reads `physical`.
    pub fn tick(self, physical: u64) -> (ts: KairosTs)
        ensures
            ts == self.ticked(physical),
    {
        if physical > self.phys_ns {
            KairosTs { phys_ns: physical, log: 0, node: self.node }
        } else {
            KairosTs { phys_ns: self.phys_ns, log: self.log.wrapping_add(1), node: self.node }
        }
    }

    /// Merge: the timestamp after `self` when `incoming` arrives and the
    /// clock reads `physical`.
    pub fn merge(self, incoming: KairosTs, physical: u64) -> (ts: KairosTs)
        ensures
            ts == self.merged(incoming, physical),
    {
        let seen: u64 = if physical >= incoming.phys_ns { physical } else { incoming.phys_ns };
        let phys: u64 = if self.phys_ns >= seen { self.phys_ns } else { seen };
        let log: u32 = if phys == self.phys_ns && phys == incoming.phys_ns {
            let top: u32 = if self.log >= incoming.log { self.log } else { incoming.log };
            top.wrapping_add(1)
        } else if phys == self.phys_ns {
            self.log.wrapping_add(1)
        } else if phys == incoming.phys_ns {
            incoming.log.wrapping_add(1)
        } else {
            0
        };
        KairosTs { phys_ns: phys, log, node: self.node }
    }
}

impl KairosTs16 {
    /// The timestamp that the record holds, field by field.
    pub open spec fn expand(self) -> KairosTs {
        KairosTs { phys_ns: self.phys_ns, log: self.log, node: self.node }
    }
}

impl Default for KairosTs {
    /// The timestamp before all others.
    fn default() -> (ts: KairosTs)
        ensures
            ts == (KairosTs { phys_ns: 0, log: 0, node: 0 }),
    {
        KairosTs { phys_ns: 0, log: 0, node: 0 }
    }
}

impl PartialOrd for KairosTs {
    /// Compares by physical time, then by logical counter, then by node.
    fn partial_cmp(&self, other: &KairosTs) -> (r: Option<Ordering>) {
        if self.phys_ns < other.phys_ns {
            Some(Ordering::Less)
        } else if self.phys_ns > other.phys_ns {
            Some(Ordering::Greater)
        } else if self.log < other.log {
            Some(Ordering::Less)
        } else if self.log > other.log {
            Some(Ordering::Greater)
        } else if self.node < other.node {
            Some(Ordering::Less)
        } else if self.node > other.node {
            Some(Ordering::Greater)
        } else {
            Some(Ordering::Equal)
        }
    }
}

impl PartialOrdSpecImpl for KairosTs {
    open spec fn obeys_partial_cmp_spec() -> bool {
        true
    }

    open spec fn partial_cmp_spec(&self, other: &KairosTs) -> Option<Ordering> {
        if self.precedes(*other) {
            Some(Ordering::Less)
        } else if other.precedes(*self) {
            Some(Ordering::Greater)
        } else {
            Some(Ordering::Equal)
        }
    }
}

impl From<KairosTs> for KairosTs16 {
    /// The compact record of `t`, field by field.
    fn from(t: KairosTs) -> (w: KairosTs16)
        ensures
            w == t.compact(),
    {
        KairosTs16 { phys_ns: t.phys_ns, log: t.log, node: t.node }
    }
}

impl FromSpecImpl<KairosTs> for KairosTs16 {
    open spec fn obeys_from_spec() -> bool {
        true
    }

    open spec fn from_spec(t: KairosTs) -> KairosTs16 {
        t.compact()
    }
}

impl From<KairosTs16> for KairosTs {
    /// The timestamp that the compact record `w` holds, field by field.
    fn from(w: KairosTs16) -> (t: KairosTs)
        ensures
            t == w.expand(),
    {
        KairosTs { phys_ns: w.phys_ns, log: w.log, node: w.node }
    }
}

impl FromSpecImpl<KairosTs16> for KairosTs {
    open spec fn obeys_from_spec() -> bool {
        true
    }

    open spec fn from_spec(w: KairosTs16) -> KairosTs {
        w.expand()
    }
}

/// A hybrid logical clock: a clock for physical time and the latest
/// timestamp issued or accepted.
pub struct KairosHlc<C: Clock> {
    clk: C,
    last: KairosTs,
}

impl<C: Clock> KairosHlc<C> {
    /// The clock that supplies physical time.
    pub closed spec fn clock(&self) -> C {
        self.clk
    }

    /// The latest timestamp issued or accepted.
    pub closed spec fn latest(&self) -> KairosTs {
        self.last
    }

    /// A clock for node `node` that has issued nothing yet.
    pub fn new(clock: C, node: u32) -> (hlc: Self)
        ensures
            hlc.clock() == clock,
            hlc.latest() == (KairosTs { phys_ns: 0, log: 0, node }),
    {
        KairosHlc { clk: clock, last: KairosTs { phys_ns: 0, log: 0, node } }
    }

    /// A clock for node `node` that resumes after a restart: it starts from
    /// the later of what the clock reads and the persisted watermark, so it
    /// issues nothing at or before a physical time it has issued before.
    pub fn with_persisted(clock: C, node: u32, persisted_phys_ns: u64) -> (hlc: Self)
        ensures
            hlc.clock() == clock,
            exists|physical: u64|
                hlc.latest() == #[trigger] KairosTs::resumed(physical, persisted_phys_ns, node),
            clock.driven() ==> hlc.latest() == KairosTs::resumed(
                clock.instant().0,
                persisted_phys_ns,
                node,
            ),
            hlc.latest().phys_ns >= persisted_phys_ns,
            hlc.latest().log == 0,
            hlc.latest().node == node,
    {
        let now_p: u64 = clock.now().0;
        let last = KairosTs::resume(now_p, persisted_phys_ns, node);
        KairosHlc { clk: clock, last }
    }

    /// The latest timestamp issued or accepted.
    pub fn last(&self) -> (ts: KairosTs)
        ensures
            ts == self.latest(),
    {
        self.last
    }

    /// Issues the next local timestamp. It is the tick of the latest
    /// timestamp at whatever the clock reads, and becomes the latest.
    pub fn now(&mut self) -> (ts: KairosTs)
        ensures
            final(self).clock() == old(self).clock(),
            final(self).latest() == ts,
            exists|physical: u64| ts == #[trigger] old(self).latest().ticked(physical),
            old(self).clock().driven() ==> ts == old(self).latest().ticked(
                old(self).clock().instant().0,
            ),
            old(self).latest().log < u32::MAX ==> old(self).latest().precedes(ts),
            ts.node == old(self).latest().node,
    {
        let p: u64 = self.clk.now().0;
        self.last = self.last.tick(p);
        assert(self.last == old(self).latest().ticked(p));
        self.last
    }

    /// Accepts a timestamp from another node and issues the local timestamp
    /// that follows both it and everything issued here before. It is the
    /// merge of the latest timestamp with `incoming` at whatever the clock
    /// reads, and becomes the latest.
    pub fn observe(&mut self, incoming: KairosTs) -> (ts: KairosTs)
        ensures
            final(self).clock() == old(self).clock(),
            final(self).latest() == ts,
            exists|physical: u64| ts == #[trigger] old(self).latest().merged(incoming, physical),
            old(self).clock().driven() ==> ts == old(self).latest().merged(
                incoming,
                old(self).clock().instant().0,
            ),
            old(self).latest().log < u32::MAX && incoming.log < u32::MAX ==> {
                &&& old(self).latest().precedes(ts)
                &&& incoming.precedes(ts)
            },
            ts.node == old(self).latest().node,
    {
        let p: u64 = self.clk.now().0;
        self.last = self.last.merge(incoming, p);
        assert(self.last == old(self).latest().merged(incoming, p));
        self.last
    }
}

/// No timestamp precedes itself, and of two different timestamps exactly one
/// precedes the other.
pub proof fn law_order_is_total(a: KairosTs, b: KairosTs)
    ensures
        !a.precedes(a),
        a != b ==> (a.precedes(b) <==> !b.precedes(a)),
{
}

/// The order of timestamps is transitive.
pub proof fn law_order_is_transitive(a: KairosTs, b: KairosTs, c: KairosTs)
    requires
        a.precedes(b),
        b.precedes(c),
    ensures
        a.precedes(c),
{
}

/// A local tick issues a timestamp after the latest one, whatever the clock
/// reads, unless it runs the logical counter past its last value.
pub proof fn law_tick_advances(last: KairosTs, physical: u64)
    requires
        !last.tick_wraps(physical),
    ensures
        last.precedes(last.ticked(physical)),
{
}

/// Where a tick does run the logical counter past its last value, the
/// timestamp it issues lies before the latest one.
pub proof fn law_tick_wrap_regresses(last: KairosTs, physical: u64)
    requires
        last.tick_wraps(physical),
    ensures
        last.ticked(physical).precedes(last),
{
}

/// A merge issues a timestamp after both the latest one and the incoming
/// one, whatever the clock reads, unless it runs the logical counter past
/// its last value.
pub proof fn law_merge_never_regresses(last: KairosTs, incoming: KairosTs, physical: u64)
    requires
        !last.merge_wraps(incoming, physical),
    ensures
        last.precedes(last.merged(incoming, physical)),
        incoming.precedes(last.merged(incoming, physical)),
{
}

/// Where the latest and the incoming timestamp share a physical time that
/// the clock has not passed, the merge counts on from the larger of the two
/// logical counters.
pub proof fn law_merge_tie_break(last: KairosTs, incoming: KairosTs, physical: u64)
    requires
        last.phys_ns == incoming.phys_ns,
        physical <= last.phys_ns,
    ensures
        last.merged(incoming, physical).phys_ns == last.phys_ns,
        last.merged(incoming, physical).log == next_log(
            if last.log >= incoming.log {
                last.log
            } else {
                incoming.log
            },
        ),
        last.merged(incoming, physical).node == last.node,
{
}

/// A clock that resumes from a watermark starts at or after it, whatever the
/// clock reads.
pub proof fn law_watermark_clamps(physical: u64, watermark: u64, node: u32)
    ensures
        KairosTs::resumed(physical, watermark, node).phys_ns >= watermark,
        KairosTs::resumed(physical, watermark, node).phys_ns >= physical,
{
}

/// The compact record loses nothing: a timestamp comes back from its record
/// unchanged, and a record from its timestamp.
pub proof fn law_compact_round_trip(t: KairosTs, w: KairosTs16)
    ensures
        t.compact().expand() == t,
        w.expand().compact() == w,
{
}

/// The compact record keeps the order: one timestamp precedes another
/// exactly when it does so after both went through their records.
pub proof fn law_compact_keeps_order(a: KairosTs, b: KairosTs)
    ensures
        a.precedes(b) <==> a.compact().expand().precedes(b.compact().expand()),
{
}

} // verus!
