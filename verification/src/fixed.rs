//! A discrete-event scheduler with a fixed capacity.
//!
//! It holds at most `N` pending events and never grows: scheduling into a
//! full scheduler fails and gives the payload back. Cancelling an event
//! frees its place at once. In everything else it does what the growing
//! scheduler does: a drain fires the pending events up to a target
//! instant, earliest first, and events of one instant in the order in which
//! they were scheduled.
//!
//! The events are kept in a vector that is never longer than `N`. Their
//! order in it carries no meaning; the event that fires first is searched
//! for.

use vstd::prelude::*;
use crate::clock::Clock;
use crate::event::{any_due, fires_first, is_drain, keyed_by_id, left_after, Event, EventId};
use crate::time::{VDuration, VInstant};

verus! {

/// Whether no two of `slots` hold the same id.
pub open spec fn distinct_ids<T>(slots: Seq<Event<T>>) -> bool {
    forall|i: int, j: int|
        0 <= i < slots.len() && 0 <= j < slots.len() && i != j ==> (#[trigger] slots[i]).id != (
        #[trigger] slots[j]).id
}

/// Whether one of `slots` holds the id `id`.
pub open spec fn holds_id<T>(slots: Seq<Event<T>>, id: EventId) -> bool {
    exists|i: int| 0 <= i < slots.len() && (#[trigger] slots[i]).id == id
}

/// A place among `slots` that holds the id `id`, where there is one.
pub open spec fn place_of<T>(slots: Seq<Event<T>>, id: EventId) -> int {
    choose|i: int| 0 <= i < slots.len() && (#[trigger] slots[i]).id == id
}

/// The events of `slots`, each under its id.
pub open spec fn filed<T>(slots: Seq<Event<T>>) -> Map<EventId, Event<T>> {
    Map::new(|id: EventId| holds_id(slots, id), |id: EventId| slots[place_of(slots, id)])
}

/// Each of `slots` is filed under its own id.
pub proof fn lemma_filed_at<T>(slots: Seq<Event<T>>, i: int)
    requires
        distinct_ids(slots),
        0 <= i < slots.len(),
    ensures
        filed(slots).contains_key(slots[i].id),
        filed(slots)[slots[i].id] == slots[i],
        place_of(slots, slots[i].id) == i,
{
    let id = slots[i].id;
    assert(holds_id(slots, id));
    let p = place_of(slots, id);
    assert(0 <= p < slots.len() && slots[p].id == id);
    if p != i {
        assert(slots[p].id != slots[i].id);
    }
}

/// What is filed is filed under its own id, and by one of the slots.
pub proof fn lemma_filed_is_keyed<T>(slots: Seq<Event<T>>)
    requires
        distinct_ids(slots),
    ensures
        keyed_by_id(filed(slots)),
        forall|id: EventId| #[trigger]
            filed(slots).contains_key(id) ==> 0 <= place_of(slots, id) < slots.len() && slots[place_of(
                slots,
                id,
            )] == filed(slots)[id],
{
    assert forall|id: EventId| #[trigger] filed(slots).contains_key(id) implies filed(
        slots,
    )[id].id == id && 0 <= place_of(slots, id) < slots.len() by {
        assert(holds_id(slots, id));
    }
}

/// As many events are filed as there are slots, where the ids are distinct.
pub proof fn lemma_filed_count<T>(slots: Seq<Event<T>>)
    requires
        distinct_ids(slots),
    ensures
        filed(slots).dom().finite(),
        filed(slots).dom().len() == slots.len(),
    decreases slots.len(),
{
    if slots.len() == 0 {
        assert(filed(slots).dom() =~= Set::<EventId>::empty());
    } else {
        let rest = slots.drop_last();
        let last = slots.last();
        assert(distinct_ids(rest)) by {
            assert forall|i: int, j: int|
                0 <= i < rest.len() && 0 <= j < rest.len() && i != j implies (#[trigger] rest[i]).id
                != (#[trigger] rest[j]).id by {
                assert(rest[i] == slots[i]);
                assert(rest[j] == slots[j]);
            }
        }
        lemma_filed_count(rest);
        assert(!holds_id(rest, last.id)) by {
            if holds_id(rest, last.id) {
                let i = place_of(rest, last.id);
                assert(rest[i] == slots[i]);
                assert(slots[i].id != slots[slots.len() - 1].id);
            }
        }
        assert(slots =~= rest.push(last));
        lemma_filed_push(rest, last);
        assert(filed(slots).dom() =~= filed(rest).dom().insert(last.id));
    }
}

/// Filing one more event under an id that no slot holds adds it to what is
/// filed and keeps the ids distinct.
#[verifier::rlimit(50)]
pub proof fn lemma_filed_push<T>(slots: Seq<Event<T>>, e: Event<T>)
    requires
        distinct_ids(slots),
        !holds_id(slots, e.id),
    ensures
        distinct_ids(slots.push(e)),
        filed(slots.push(e)) == filed(slots).insert(e.id, e),
{
    let more = slots.push(e);
    assert(distinct_ids(more)) by {
        assert forall|i: int, j: int|
            0 <= i < more.len() && 0 <= j < more.len() && i != j implies (#[trigger] more[i]).id != (
            #[trigger] more[j]).id by {
            if i < slots.len() && j < slots.len() {
                assert(more[i] == slots[i]);
                assert(more[j] == slots[j]);
            } else if i < slots.len() {
                assert(more[i] == slots[i]);
                assert(holds_id(slots, slots[i].id));
            } else {
                assert(more[j] == slots[j]);
                assert(holds_id(slots, slots[j].id));
            }
        }
    }
    assert forall|id: EventId| filed(more).contains_key(id) <==> filed(slots).insert(
        e.id,
        e,
    ).contains_key(id) by {
        if holds_id(more, id) {
            let i = place_of(more, id);
            if i < slots.len() {
                assert(more[i] == slots[i]);
                assert(holds_id(slots, id));
            }
        }
        if holds_id(slots, id) {
            let i = place_of(slots, id);
            assert(more[i] == slots[i]);
            assert(holds_id(more, id));
        }
        if id == e.id {
            assert(more[slots.len() as int] == e);
            assert(holds_id(more, id));
        }
    }
    assert forall|id: EventId| filed(more).contains_key(id) implies filed(more)[id] == filed(
        slots,
    ).insert(e.id, e)[id] by {
        let i = place_of(more, id);
        lemma_filed_at(more, i);
        if i < slots.len() {
            assert(more[i] == slots[i]);
            lemma_filed_at(slots, i);
        }
    }
    assert(filed(more) =~= filed(slots).insert(e.id, e));
}

/// Taking the event at place `i` out, by moving the last event into its
/// place, takes it out of what is filed and keeps the ids distinct.
#[verifier::rlimit(50)]
pub proof fn lemma_filed_swap_remove<T>(slots: Seq<Event<T>>, i: int)
    requires
        distinct_ids(slots),
        0 <= i < slots.len(),
    ensures
        distinct_ids(slots.update(i, slots.last()).drop_last()),
        filed(slots.update(i, slots.last()).drop_last()) == filed(slots).remove(slots[i].id),
{
    let less = slots.update(i, slots.last()).drop_last();
    let n = slots.len() - 1;
    assert forall|k: int| 0 <= k < less.len() implies #[trigger] less[k] == slots[if k == i {
        n
    } else {
        k
    }] by {}
    assert(distinct_ids(less)) by {
        assert forall|a: int, b: int|
            0 <= a < less.len() && 0 <= b < less.len() && a != b implies (#[trigger] less[a]).id != (
            #[trigger] less[b]).id by {
            let a2 = if a == i {
                n
            } else {
                a
            };
            let b2 = if b == i {
                n
            } else {
                b
            };
            assert(less[a] == slots[a2]);
            assert(less[b] == slots[b2]);
            assert(slots[a2].id != slots[b2].id);
        }
    }
    let gone = slots[i].id;
    assert forall|id: EventId| filed(less).contains_key(id) <==> filed(slots).remove(
        gone,
    ).contains_key(id) by {
        if holds_id(less, id) {
            let k = place_of(less, id);
            let k2 = if k == i {
                n
            } else {
                k
            };
            assert(less[k] == slots[k2]);
            assert(holds_id(slots, id));
            assert(slots[k2].id != slots[i].id);
        }
        if holds_id(slots, id) && id != gone {
            let k = place_of(slots, id);
            let k2 = if k == n {
                i
            } else {
                k
            };
            assert(less[k2] == slots[k]);
            assert(holds_id(less, id));
        }
    }
    assert forall|id: EventId| filed(less).contains_key(id) implies filed(less)[id] == filed(
        slots,
    ).remove(gone)[id] by {
        let k = place_of(less, id);
        lemma_filed_at(less, k);
        let k2 = if k == i {
            n
        } else {
            k
        };
        assert(less[k] == slots[k2]);
        lemma_filed_at(slots, k2);
    }
    assert(filed(less) =~= filed(slots).remove(gone));
}

/// A scheduler of at most `N` pending events that carry a `T`, driven by a
/// clock `C`.
pub struct Scheduler<T, C: Clock, const N: usize> {
    clock: C,
    slots: Vec<Event<T>>,
    next_id: u64,
}

impl<T, C: Clock, const N: usize> Scheduler<T, C, N> {
    /// The scheduler's clock.
    pub closed spec fn clock(&self) -> C {
        self.clock
    }

    /// How many event ids the scheduler has handed out.
    pub closed spec fn issued(&self) -> nat {
        self.next_id as nat
    }

    /// The events that are scheduled and have neither fired nor been
    /// cancelled, each under its id.
    pub closed spec fn pending(&self) -> Map<EventId, Event<T>> {
        filed(self.slots@)
    }

    /// The scheduler's invariant: it holds at most `N` events, no two under
    /// one id, and every id has been handed out.
    pub closed spec fn wf(&self) -> bool {
        &&& self.slots@.len() <= N
        &&& distinct_ids(self.slots@)
        &&& forall|i: int| 0 <= i < self.slots@.len() ==> (#[trigger] self.slots@[i]).id.0 < self.next_id
    }

    /// What the invariant means for the pending events: they are at most
    /// `N`, each is filed under its own id, and each id has been handed out.
    pub proof fn lemma_pending_is_sound(&self)
        requires
            self.wf(),
        ensures
            self.pending().dom().finite(),
            self.pending().dom().len() <= N,
            keyed_by_id(self.pending()),
            forall|id: EventId| self.pending().contains_key(id) ==> id.0 < self.issued(),
    {
        lemma_filed_count(self.slots@);
        lemma_filed_is_keyed(self.slots@);
        assert forall|id: EventId| self.pending().contains_key(id) implies id.0
            < self.issued() by {
            assert(holds_id(self.slots@, id));
            let i = place_of(self.slots@, id);
            assert(self.slots@[i].id.0 < self.next_id);
        }
    }

    /// A scheduler with nothing pending.
    pub fn new(clock: C) -> (s: Self)
        ensures
            s.wf(),
            s.clock() == clock,
            s.issued() == 0,
            s.pending() == Map::<EventId, Event<T>>::empty(),
    {
        let s = Scheduler { clock, slots: Vec::new(), next_id: 0 };
        assert(s.pending() =~= Map::<EventId, Event<T>>::empty());
        s
    }

    /// Schedules `payload` to fire at the instant `at`. It fails, and gives
    /// the payload back, when `N` events are pending already, and when
    /// every event id has been handed out.
    pub fn schedule_at(&mut self, at: VInstant, payload: T) -> (r: Result<EventId, T>)
        requires
            old(self).wf(),
        ensures
            final(self).wf(),
            final(self).clock() == old(self).clock(),
            r is Ok <==> old(self).pending().dom().len() < N && old(self).issued() < u64::MAX,
            r matches Ok(id) ==> {
                &&& id.0 == old(self).issued()
                &&& !old(self).pending().contains_key(id)
                &&& final(self).issued() == old(self).issued() + 1
                &&& final(self).pending() == old(self).pending().insert(
                    id,
                    Event { id, at, payload },
                )
            },
            r matches Err(back) ==> {
                &&& back == payload
                &&& final(self).issued() == old(self).issued()
                &&& final(self).pending() == old(self).pending()
            },
    {
        proof {
            self.lemma_pending_is_sound();
            lemma_filed_count(self.slots@);
        }
        if self.slots.len() >= N || self.next_id == u64::MAX {
            return Err(payload);
        }
        let id: u64 = self.next_id;
        let ghost event = Event { id: EventId(id), at, payload };
        proof {
            lemma_filed_push(self.slots@, event);
        }
        self.next_id = id + 1;
        self.slots.push(Event { id: EventId(id), at, payload });
        assert(self.slots@ == old(self).slots@.push(event));
        assert forall|i: int| 0 <= i < self.slots@.len() implies (#[trigger] self.slots@[i]).id.0
            < self.next_id by {
            if i < old(self).slots@.len() {
                assert(self.slots@[i] == old(self).slots@[i]);
            }
        }
        Ok(EventId(id))
    }

    /// Schedules `payload` to fire `in_dur` after what the clock reads now,
    /// wrapping round the ring of instants. It fails, and gives the payload
    /// back, when `N` events are pending already, and when every event id
    /// has been handed out.
    pub fn schedule_in(&mut self, in_dur: VDuration, payload: T) -> (r: Result<EventId, T>)
        requires
            old(self).wf(),
        ensures
            final(self).wf(),
            final(self).clock() == old(self).clock(),
            r is Ok <==> old(self).pending().dom().len() < N && old(self).issued() < u64::MAX,
            r matches Ok(id) ==> {
                &&& id.0 == old(self).issued()
                &&& !old(self).pending().contains_key(id)
                &&& final(self).issued() == old(self).issued() + 1
                &&& exists|now: VInstant|
                    final(self).pending() == old(self).pending().insert(
                        id,
                        Event { id, at: #[trigger] now.plus(in_dur), payload },
                    )
                &&& old(self).clock().driven() ==> final(self).pending()
                    == old(self).pending().insert(
                    id,
                    Event { id, at: old(self).clock().instant().plus(in_dur), payload },
                )
            },
            r matches Err(back) ==> {
                &&& back == payload
                &&& final(self).issued() == old(self).issued()
                &&& final(self).pending() == old(self).pending()
            },
    {
        let now = self.clock.now();
        let at = now + in_dur;
        assert(at == now.plus(in_dur));
        self.schedule_at(at, payload)
    }

    /// Where the event `id` is kept, if it is pending.
    fn find(&self, id: EventId) -> (place: Option<usize>)
        requires
            self.wf(),
        ensures
            place is Some <==> self.pending().contains_key(id),
            place matches Some(i) ==> i < self.slots@.len() && self.slots@[i as int].id == id,
    {
        let mut i: usize = 0;
        while i < self.slots.len()
            invariant
                i <= self.slots@.len(),
                forall|k: int| 0 <= k < i ==> (#[trigger] self.slots@[k]).id != id,
            decreases self.slots@.len() - i,
        {
            if self.slots[i].id.0 == id.0 {
                assert(holds_id(self.slots@, id));
                return Some(i);
            }
            i = i + 1;
        }
        assert(!holds_id(self.slots@, id));
        None
    }

    /// Cancels the event `id` and frees its place. Nothing happens if no
    /// such event is pending.
    pub fn cancel(&mut self, id: EventId)
        requires
            old(self).wf(),
        ensures
            final(self).wf(),
            final(self).clock() == old(self).clock(),
            final(self).issued() == old(self).issued(),
            final(self).pending() == old(self).pending().remove(id),
    {
        match self.find(id) {
            Some(i) => {
                proof {
                    lemma_filed_swap_remove(self.slots@, i as int);
                }
                let _ = self.slots.swap_remove(i);
                proof {
                    self.lemma_kept_ids_were_issued(*old(self), i as int);
                }
            },
            None => {
                assert(self.pending() =~= old(self).pending().remove(id));
            },
        }
    }

    /// After one event was taken out, every id kept has still been handed out.
    proof fn lemma_kept_ids_were_issued(&self, before: Self, i: int)
        requires
            before.wf(),
            0 <= i < before.slots@.len(),
            self.slots@ == before.slots@.update(i, before.slots@.last()).drop_last(),
            self.next_id == before.next_id,
        ensures
            forall|k: int|
                0 <= k < self.slots@.len() ==> (#[trigger] self.slots@[k]).id.0 < self.next_id,
    {
        assert forall|k: int| 0 <= k < self.slots@.len() implies (#[trigger] self.slots@[k]).id.0
            < self.next_id by {
            let k2 = if k == i {
                before.slots@.len() - 1
            } else {
                k
            };
            assert(self.slots@[k] == before.slots@[k2]);
        }
    }

    /// The scheduler's clock, to drive virtual time directly.
    pub fn clock_mut(&mut self) -> (clock: &mut C)
        ensures
            *clock == old(self).clock(),
            final(self).clock() == *final(clock),
            final(self).issued() == old(self).issued(),
            final(self).pending() == old(self).pending(),
            final(self).wf() == old(self).wf(),
    {
        &mut self.clock
    }

    /// What the scheduler's clock reads now.
    pub fn now(&self) -> (t: VInstant)
        ensures
            self.clock().driven() ==> t == self.clock().instant(),
    {
        self.clock.now()
    }

    /// Where the event that fires first is kept, if anything is pending.
    #[verifier::rlimit(50)]
    fn find_first(&self) -> (place: Option<usize>)
        requires
            self.wf(),
        ensures
            place is None <==> self.slots@.len() == 0,
            place matches Some(i) ==> i < self.slots@.len() && fires_first(
                self.pending(),
                self.slots@[i as int].id,
            ),
    {
        if self.slots.len() == 0 {
            return None;
        }
        let mut best: usize = 0;
        let mut i: usize = 1;
        while i < self.slots.len()
            invariant
                self.wf(),
                best < i <= self.slots@.len(),
                forall|k: int|
                    0 <= k < i && k != best ==> self.slots@[best as int].fires_before(
                        #[trigger] self.slots@[k],
                    ),
            decreases self.slots@.len() - i,
        {
            let candidate = &self.slots[i];
            let leader = &self.slots[best];
            assert(candidate.id != leader.id);
            if candidate.at.0 < leader.at.0 || (candidate.at.0 == leader.at.0 && candidate.id.0
                < leader.id.0) {
                best = i;
            }
            i = i + 1;
        }
        proof {
            lemma_filed_at(self.slots@, best as int);
            lemma_filed_is_keyed(self.slots@);
            let first = self.slots@[best as int].id;
            assert forall|other: EventId|
                self.pending().contains_key(other) && other != first implies self.pending()[first].fires_before(
                #[trigger] self.pending()[other]) by {
                let k = place_of(self.slots@, other);
                assert(self.slots@[k] == self.pending()[other]);
                assert(k != best);
            }
        }
        Some(best)
    }

    /// Fires the next event if it is due: where a pending event lies at or
    /// before `target`, it moves the clock to the instant of the one that
    /// fires first, takes that event out and returns it. Where none does, it
    /// changes nothing.
    #[verifier::rlimit(50)]
    pub fn pop_due(&mut self, target: VInstant) -> (fired: Option<Event<T>>)
        requires
            old(self).wf(),
        ensures
            final(self).wf(),
            final(self).issued() == old(self).issued(),
            fired is Some <==> any_due(old(self).pending(), target),
            fired matches Some(ev) ==> {
                &&& ev.due(target)
                &&& fires_first(old(self).pending(), ev.id)
                &&& old(self).pending()[ev.id] == ev
                &&& final(self).pending() == old(self).pending().remove(ev.id)
                &&& old(self).clock().driven() ==> final(self).clock().driven()
                &&& old(self).clock().driven() ==> final(self).clock().instant() == ev.at
            },
            fired is None ==> {
                &&& final(self).pending() == old(self).pending()
                &&& final(self).clock() == old(self).clock()
            },
    {
        match self.find_first() {
            None => {
                assert(!any_due(self.pending(), target)) by {
                    if any_due(self.pending(), target) {
                        let id = choose|id: EventId|
                            self.pending().contains_key(id) && (#[trigger] self.pending()[id]).due(
                                target,
                            );
                        assert(holds_id(self.slots@, id));
                    }
                }
                None
            },
            Some(i) => {
                proof {
                    lemma_filed_at(self.slots@, i as int);
                }
                if self.slots[i].at.0 > target.0 {
                    proof {
                        crate::event::law_first_not_due_means_none_due(
                            self.pending(),
                            self.slots@[i as int].id,
                            target,
                        );
                    }
                    None
                } else {
                    proof {
                        lemma_filed_swap_remove(self.slots@, i as int);
                    }
                    let ev = self.slots.swap_remove(i);
                    proof {
                        self.lemma_kept_ids_were_issued(*old(self), i as int);
                    }
                    let delta = ev.at - self.clock.now();
                    self.clock.advance(delta);
                    assert(old(self).pending()[ev.id].due(target));
                    Some(ev)
                }
            },
        }
    }

    /// Drains the scheduler up to `target` and returns what fired, in the
    /// order in which it fired: every pending event at or before `target`,
    /// earliest first, and events of one instant in the order in which they
    /// were scheduled. At the end the clock has been moved on to `target`.
    #[verifier::rlimit(50)]
    pub fn drain_until(&mut self, target: VInstant) -> (fired: Vec<Event<T>>)
        requires
            old(self).wf(),
        ensures
            final(self).wf(),
            final(self).issued() == old(self).issued(),
            is_drain(fired@, old(self).pending(), target),
            final(self).pending() == left_after(old(self).pending(), target),
            old(self).clock().driven() ==> final(self).clock().driven(),
            old(self).clock().driven() ==> final(self).clock().instant() == target,
    {
        let ghost before = self.pending();
        let ghost driven = self.clock().driven();
        let mut fired: Vec<Event<T>> = Vec::new();
        loop
            invariant
                self.wf(),
                self.issued() == old(self).issued(),
                driven ==> self.clock().driven(),
                forall|id: EventId| #[trigger]
                    self.pending().contains_key(id) ==> before.contains_key(id)
                        && self.pending()[id] == before[id],
                forall|id: EventId|
                    before.contains_key(id) && !self.pending().contains_key(id) ==> exists|i: int|
                        0 <= i < fired@.len() && (#[trigger] fired@[i]).id == id,
                forall|i: int|
                    0 <= i < fired@.len() ==> before.contains_key((#[trigger] fired@[i]).id)
                        && before[fired@[i].id] == fired@[i] && fired@[i].due(target),
                forall|i: int, j: int|
                    0 <= i < j < fired@.len() ==> (#[trigger] fired@[i]).fires_before(
                        #[trigger] fired@[j],
                    ),
                forall|i: int, id: EventId|
                    0 <= i < fired@.len() && self.pending().contains_key(id) ==> (
                    #[trigger] fired@[i]).fires_before(#[trigger] self.pending()[id]),
            ensures
                !any_due(self.pending(), target),
            decreases self.pending().dom().len(),
        {
            proof {
                self.lemma_pending_is_sound();
            }
            let ghost held = self.pending();
            let ghost so_far = fired@;
            match self.pop_due(target) {
                Some(ev) => {
                    let ghost event = ev;
                    fired.push(ev);
                    proof {
                        assert(fired@ == so_far.push(event));
                        assert forall|id: EventId|
                            before.contains_key(id) && !self.pending().contains_key(
                                id,
                            ) implies exists|i: int|
                            0 <= i < fired@.len() && (#[trigger] fired@[i]).id == id by {
                            if held.contains_key(id) {
                                assert(id == event.id);
                                assert(fired@[so_far.len() as int].id == id);
                            } else {
                                let i = choose|i: int|
                                    0 <= i < so_far.len() && (#[trigger] so_far[i]).id == id;
                                assert(fired@[i] == so_far[i]);
                            }
                        }
                        assert forall|i: int, j: int| 0 <= i < j < fired@.len() implies (
                        #[trigger] fired@[i]).fires_before(#[trigger] fired@[j]) by {
                            if j == so_far.len() {
                                assert(fired@[i] == so_far[i]);
                                assert(so_far[i].fires_before(held[event.id]));
                            } else {
                                assert(fired@[i] == so_far[i]);
                                assert(fired@[j] == so_far[j]);
                            }
                        }
                        assert forall|i: int, id: EventId|
                            0 <= i < fired@.len() && self.pending().contains_key(id) implies (
                        #[trigger] fired@[i]).fires_before(#[trigger] self.pending()[id]) by {
                            assert(held.contains_key(id) && id != event.id);
                            assert(self.pending()[id] == held[id]);
                            if i == so_far.len() {
                                assert(held[event.id].fires_before(held[id]));
                            } else {
                                assert(fired@[i] == so_far[i]);
                                assert(so_far[i].fires_before(held[id]));
                            }
                        }
                        assert forall|i: int| 0 <= i < fired@.len() implies before.contains_key(
                            (#[trigger] fired@[i]).id,
                        ) && before[fired@[i].id] == fired@[i] && fired@[i].due(target) by {
                            if i < so_far.len() {
                                assert(fired@[i] == so_far[i]);
                            } else {
                                assert(held.contains_key(event.id));
                            }
                        }
                    }
                },
                None => {
                    break ;
                },
            }
        }
        let remaining = target - self.clock.now();
        self.clock.advance(remaining);
        proof {
            assert forall|id: EventId| self.pending().contains_key(id) implies !before[id].due(
                target,
            ) by {
                assert(self.pending()[id] == before[id]);
            }
            assert forall|id: EventId|
                before.contains_key(id) && !self.pending().contains_key(id) implies before[id].due(
                target,
            ) by {
                let i = choose|i: int| 0 <= i < fired@.len() && (#[trigger] fired@[i]).id == id;
                assert(before[fired@[i].id] == fired@[i]);
            }
            assert(self.pending() =~= left_after(before, target));
        }
        fired
    }

    /// Drains the scheduler up to `target`: as long as a pending event lies
    /// at or before `target`, it fires the one that fires first, as
    /// [`Scheduler::pop_due`] does, and hands what the clock then reads and
    /// the event's payload to `on_event`. At the end it moves the clock on
    /// to `target`.
    #[verifier::rlimit(50)]
    pub fn run_until<F: FnMut(VInstant, T)>(&mut self, target: VInstant, mut on_event: F)
        requires
            old(self).wf(),
            forall|t: VInstant, payload: T| call_requires(on_event, (t, payload)),
        ensures
            final(self).wf(),
            final(self).issued() == old(self).issued(),
            final(self).pending() == left_after(old(self).pending(), target),
            old(self).clock().driven() ==> final(self).clock().driven(),
            old(self).clock().driven() ==> final(self).clock().instant() == target,
    {
        let ghost before = self.pending();
        let ghost driven = self.clock().driven();
        loop
            invariant
                self.wf(),
                self.issued() == old(self).issued(),
                forall|t: VInstant, payload: T| call_requires(on_event, (t, payload)),
                driven ==> self.clock().driven(),
                forall|id: EventId| #[trigger]
                    self.pending().contains_key(id) ==> before.contains_key(id)
                        && self.pending()[id] == before[id],
                forall|id: EventId|
                    before.contains_key(id) && !self.pending().contains_key(id) ==> (
                    #[trigger] before[id]).due(target),
            ensures
                !any_due(self.pending(), target),
            decreases self.pending().dom().len(),
        {
            proof {
                self.lemma_pending_is_sound();
            }
            match self.pop_due(target) {
                Some(ev) => {
                    let t = self.clock.now();
                    on_event(t, ev.payload);
                },
                None => {
                    break ;
                },
            }
        }
        let remaining = target - self.clock.now();
        self.clock.advance(remaining);
        assert forall|id: EventId| self.pending().contains_key(id) implies !before[id].due(
            target,
        ) by {
            assert(self.pending()[id] == before[id]);
        }
        assert(self.pending() =~= left_after(before, target));
    }
}

} // verus!
