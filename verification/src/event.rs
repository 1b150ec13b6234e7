//! Events and the order in which a scheduler fires them.
//!
//! A scheduler's pending events are modelled as a map from event id to
//! event. Events fire in the order of their instants; events of one instant
//! fire in the order in which they were scheduled, which is the order of
//! their ids.

use vstd::prelude::*;
use vstd::std_specs::cmp::{PartialEqSpecImpl, PartialOrdSpecImpl};
use core::cmp::Ordering;
use crate::time::VInstant;

verus! {

/// The handle of a scheduled event.
#[derive(Debug, Clone, Copy, PartialEq, Eq, Structural, Hash, Ord, PartialOrd)]
pub struct EventId(pub u64);

/// A scheduled event: `payload` is handed out when virtual time reaches `at`.
#[derive(Debug)]
pub struct Event<T> {
    /// The handle under which the event was scheduled.
    pub id: EventId,
    /// The instant at which the event fires.
    pub at: VInstant,
    /// What the event carries.
    pub payload: T,
}

impl<T> Event<T> {
    /// Whether this event fires before `other`: at an earlier instant, or at
    /// the same instant and scheduled earlier.
    pub open spec fn fires_before(self, other: Event<T>) -> bool {
        self.at.0 < other.at.0 || (self.at.0 == other.at.0 && self.id.0 < other.id.0)
    }

    /// Whether this event fires in a drain up to `target`.
    pub open spec fn due(self, target: VInstant) -> bool {
        self.at.0 <= target.0
    }
}

/// Whether `pending` files every event under its own id.
pub open spec fn keyed_by_id<T>(pending: Map<EventId, Event<T>>) -> bool {
    forall|id: EventId| pending.contains_key(id) ==> (#[trigger] pending[id]).id == id
}

/// Whether the event filed under `id` is the one that fires first among `pending`.
pub open spec fn fires_first<T>(pending: Map<EventId, Event<T>>, id: EventId) -> bool {
    &&& pending.contains_key(id)
    &&& forall|other: EventId|
        pending.contains_key(other) && other != id ==> pending[id].fires_before(
            #[trigger] pending[other],
        )
}

/// Whether some event among `pending` fires in a drain up to `target`.
pub open spec fn any_due<T>(pending: Map<EventId, Event<T>>, target: VInstant) -> bool {
    exists|id: EventId| pending.contains_key(id) && (#[trigger] pending[id]).due(target)
}

/// What is left of `pending` after a drain up to `target`: the events that
/// lie after it.
pub open spec fn left_after<T>(pending: Map<EventId, Event<T>>, target: VInstant) -> Map<
    EventId,
    Event<T>,
> {
    Map::new(
        |id: EventId| pending.contains_key(id) && !pending[id].due(target),
        |id: EventId| pending[id],
    )
}

/// Whether `fired` is what a drain of `pending` up to `target` fires, in the
/// order in which it fires it: pending events that are due, each before the
/// next, and every pending event that is due among them.
pub open spec fn is_drain<T>(
    fired: Seq<Event<T>>,
    pending: Map<EventId, Event<T>>,
    target: VInstant,
) -> bool {
    &&& forall|i: int|
        0 <= i < fired.len() ==> pending.contains_key((#[trigger] fired[i]).id)
            && pending[fired[i].id] == fired[i] && fired[i].due(target)
    &&& forall|i: int, j: int|
        0 <= i < j < fired.len() ==> (#[trigger] fired[i]).fires_before(#[trigger] fired[j])
    &&& forall|id: EventId|
        pending.contains_key(id) && (#[trigger] pending[id]).due(target) ==> exists|i: int|
            0 <= i < fired.len() && (#[trigger] fired[i]).id == id
}

impl<T> PartialEq for Event<T> {
    /// Events compare by their instants alone.
    fn eq(&self, other: &Event<T>) -> (r: bool) {
        self.at.0 == other.at.0
    }
}

impl<T> PartialEqSpecImpl for Event<T> {
    open spec fn obeys_eq_spec() -> bool {
        true
    }

    open spec fn eq_spec(&self, other: &Event<T>) -> bool {
        self.at.0 == other.at.0
    }
}

impl<T> Eq for Event<T> {

}

impl<T> PartialOrd for Event<T> {
    /// The earlier event is the greater one, so that a structure that hands
    /// out its greatest item hands out the event that fires first.
    fn partial_cmp(&self, other: &Event<T>) -> (r: Option<Ordering>) {
        if other.at.0 < self.at.0 {
            Some(Ordering::Less)
        } else if other.at.0 > self.at.0 {
            Some(Ordering::Greater)
        } else {
            Some(Ordering::Equal)
        }
    }
}

impl<T> PartialOrdSpecImpl for Event<T> {
    open spec fn obeys_partial_cmp_spec() -> bool {
        true
    }

    open spec fn partial_cmp_spec(&self, other: &Event<T>) -> Option<Ordering> {
        if other.at.0 < self.at.0 {
            Some(Ordering::Less)
        } else if other.at.0 > self.at.0 {
            Some(Ordering::Greater)
        } else {
            Some(Ordering::Equal)
        }
    }
}

/// At most one event fires first: ids break every tie.
pub proof fn law_first_is_unique<T>(pending: Map<EventId, Event<T>>, a: EventId, b: EventId)
    requires
        keyed_by_id(pending),
        fires_first(pending, a),
        fires_first(pending, b),
    ensures
        a == b,
{
    if a != b {
        assert(pending[a].fires_before(pending[b]));
        assert(pending[b].fires_before(pending[a]));
    }
}

/// If the event that fires first is not due, no event is.
pub proof fn law_first_not_due_means_none_due<T>(
    pending: Map<EventId, Event<T>>,
    first: EventId,
    target: VInstant,
)
    requires
        fires_first(pending, first),
        !pending[first].due(target),
    ensures
        !any_due(pending, target),
        left_after(pending, target) == pending,
{
    assert forall|id: EventId| pending.contains_key(id) implies !(#[trigger] pending[id]).due(
        target,
    ) by {
        if id != first {
            assert(pending[first].fires_before(pending[id]));
        }
    }
    assert(left_after(pending, target) =~= pending);
}

/// Events fire in order: the event that fires first, once it is taken out,
/// is followed by one that fires after it.
pub proof fn law_pops_come_in_order<T>(
    pending: Map<EventId, Event<T>>,
    first: EventId,
    second: EventId,
)
    requires
        fires_first(pending, first),
        fires_first(pending.remove(first), second),
    ensures
        first != second,
        pending[first].fires_before(pending[second]),
{
    assert(pending.remove(first).contains_key(second));
    assert(pending.contains_key(second));
}

/// A cancelled event never fires: once it is taken out of the pending
/// events, it is not the one that fires first, whatever else is pending.
pub proof fn law_cancelled_never_fires<T>(
    pending: Map<EventId, Event<T>>,
    cancelled: EventId,
    first: EventId,
)
    requires
        fires_first(pending.remove(cancelled), first),
    ensures
        first != cancelled,
        pending.contains_key(first),
{
}

/// The event that fires first among all pending events is due whenever any
/// pending event is.
pub proof fn law_first_is_due_if_any_is<T>(
    pending: Map<EventId, Event<T>>,
    first: EventId,
    target: VInstant,
)
    requires
        fires_first(pending, first),
        any_due(pending, target),
    ensures
        pending[first].due(target),
{
    if !pending[first].due(target) {
        law_first_not_due_means_none_due(pending, first, target);
    }
}

/// Two drains of the same pending events up to the same target agree on
/// their first `k` events.
proof fn lemma_drains_agree_up_to<T>(
    a: Seq<Event<T>>,
    b: Seq<Event<T>>,
    pending: Map<EventId, Event<T>>,
    target: VInstant,
    k: int,
)
    requires
        is_drain(a, pending, target),
        is_drain(b, pending, target),
        0 <= k <= a.len(),
    ensures
        k <= b.len(),
        forall|i: int| 0 <= i < k ==> a[i] == b[i],
    decreases k,
{
    if k > 0 {
        lemma_drains_agree_up_to(a, b, pending, target, k - 1);
        let x = a[k - 1];
        assert(pending.contains_key(x.id) && pending[x.id] == x && x.due(target));
        let m = choose|m: int| 0 <= m < b.len() && (#[trigger] b[m]).id == x.id;
        assert(b[m] == pending[b[m].id]);
        assert(b[m] == x);
        if m < k - 1 {
            assert(a[m] == b[m]);
            assert(a[m].fires_before(a[k - 1]));
        } else if m > k - 1 {
            let y = b[k - 1];
            assert(y.fires_before(b[m]));
            assert(pending.contains_key(y.id) && pending[y.id] == y && y.due(target));
            let n = choose|n: int| 0 <= n < a.len() && (#[trigger] a[n]).id == y.id;
            assert(a[n] == pending[a[n].id]);
            assert(a[n] == y);
            if n < k - 1 {
                assert(a[n] == b[n]);
                assert(b[n].fires_before(b[k - 1]));
            } else if n > k - 1 {
                assert(a[k - 1].fires_before(a[n]));
            }
        }
    }
}

/// What a drain fires is settled by the pending events and the target: two
/// sequences that are both a drain of them are the same sequence.
pub proof fn law_drain_is_unique<T>(
    a: Seq<Event<T>>,
    b: Seq<Event<T>>,
    pending: Map<EventId, Event<T>>,
    target: VInstant,
)
    requires
        is_drain(a, pending, target),
        is_drain(b, pending, target),
    ensures
        a == b,
{
    lemma_drains_agree_up_to(a, b, pending, target, a.len() as int);
    lemma_drains_agree_up_to(b, a, pending, target, b.len() as int);
    assert(a =~= b);
}

} // verus!
