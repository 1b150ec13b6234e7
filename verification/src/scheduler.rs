//! A discrete-event scheduler over any clock.
//!
//! The scheduler owns a clock and the events that have been scheduled and
//! have neither fired nor been cancelled. A drain fires the pending events
//! up to a target instant, earliest first, and events of one instant in the
//! order in which they were scheduled. Before it hands an event out it moves
//! the clock to the event's instant; at the end it moves the clock on to the
//! target.
//!
//! The pending events are modelled by [`Scheduler::pending`], a map from
//! event id to event.

use vstd::prelude::*;
use priority_queue::PriorityQueue;
use std::cmp::Reverse;
use std::collections::HashMap;
use crate::clock::Clock;
use crate::event::{any_due, fires_first, is_drain, keyed_by_id, left_after, Event, EventId};
use crate::queue::{
    fresh_hasher, key_le, queue_entries, queue_key, queue_peek, queue_pop, queue_push,
    queue_rekey, queue_remove, queue_with_hasher,
};
use crate::time::{VDuration, VInstant};

verus! {

broadcast use vstd::std_specs::hash::group_hash_axioms;

/// A scheduler of events that carry a `T`, driven by a clock `C`.
pub struct Scheduler<T, C: Clock> {
    clock: C,
    queue: PriorityQueue<u64, Reverse<(u64, u64)>, ahash::RandomState>,
    events: HashMap<u64, T>,
    next_id: u64,
}

impl<T, C: Clock> Scheduler<T, C> {
    /// The scheduler's clock.
    pub closed spec fn clock(&self) -> C {
        self.clock
    }

    /// How many event ids the scheduler has handed out.
    pub closed spec fn issued(&self) -> nat {
        self.next_id as nat
    }

    /// The events that are scheduled and have neither fired nor been
    /// cancelled, each under its id.
    pub closed spec fn pending(&self) -> Map<EventId, Event<T>> {
        Map::new(
            |id: EventId| self.events@.contains_key(id.0),
            |id: EventId|
                Event {
                    id,
                    at: VInstant(queue_entries(self.queue)[id.0].0),
                    payload: self.events@[id.0],
                },
        )
    }

    /// The scheduler's invariant: the queue and the payloads hold the same
    /// ids, each queued under its instant and its own id, and every id has
    /// been handed out.
    pub closed spec fn wf(&self) -> bool {
        &&& forall|id: u64| #[trigger]
            self.events@.contains_key(id) ==> queue_entries(self.queue).contains_key(id)
        &&& forall|id: u64| #[trigger]
            queue_entries(self.queue).contains_key(id) ==> {
                &&& self.events@.contains_key(id)
                &&& queue_entries(self.queue)[id].1 == id
                &&& id < self.next_id
            }
        &&& self.pending().dom().finite()
    }

    /// What the invariant means for the pending events: they are finitely
    /// many, each is filed under its own id, and each id has been handed out.
    pub proof fn lemma_pending_is_sound(&self)
        requires
            self.wf(),
        ensures
            self.pending().dom().finite(),
            keyed_by_id(self.pending()),
            forall|id: EventId| self.pending().contains_key(id) ==> id.0 < self.issued(),
    {
    }

    /// A scheduler with nothing pending.
    pub fn new(clock: C) -> (s: Self)
        ensures
            s.wf(),
            s.clock() == clock,
            s.issued() == 0,
            s.pending() == Map::<EventId, Event<T>>::empty(),
    {
        let s = Scheduler {
            clock,
            queue: queue_with_hasher(fresh_hasher()),
            events: HashMap::new(),
            next_id: 0,
        };
        assert(s.pending() =~= Map::<EventId, Event<T>>::empty());
        s
    }

    /// Schedules `payload` to fire at the instant `at`. It fails, and gives
    /// the payload back, only when every event id has been handed out.
    pub fn schedule_at(&mut self, at: VInstant, payload: T) -> (r: Result<EventId, T>)
        requires
            old(self).wf(),
        ensures
            final(self).wf(),
            final(self).clock() == old(self).clock(),
            r is Ok <==> old(self).issued() < u64::MAX,
            r matches Ok(id) ==> {
                &&& id.0 == old(self).issued()
                &&& !old(self).pending().contains_key(id)
                &&& final(self).issued() == old(self).issued() + 1
                &&& final(self).pending() == old(self).pending().insert(
                    id,
                    Event { id, at, payload },
                )
            },
            r matches Err(back) ==> {
                &&& back == payload
                &&& final(self).issued() == old(self).issued()
                &&& final(self).pending() == old(self).pending()
            },
    {
        if self.next_id == u64::MAX {
            return Err(payload);
        }
        let id: u64 = self.next_id;
        self.next_id = id + 1;
        queue_push(&mut self.queue, id, at.0, id);
        self.events.insert(id, payload);
        assert(self.pending() =~= old(self).pending().insert(
            EventId(id),
            Event { id: EventId(id), at, payload },
        ));
        Ok(EventId(id))
    }

    /// Schedules `payload` to fire `in_dur` after what the clock reads now,
    /// wrapping round the ring of instants. It fails, and gives the payload
    /// back, only when every event id has been handed out.
    pub fn schedule_in(&mut self, in_dur: VDuration, payload: T) -> (r: Result<EventId, T>)
        requires
            old(self).wf(),
        ensures
            final(self).wf(),
            final(self).clock() == old(self).clock(),
            r is Ok <==> old(self).issued() < u64::MAX,
            r matches Ok(id) ==> {
                &&& id.0 == old(self).issued()
                &&& !old(self).pending().contains_key(id)
                &&& final(self).issued() == old(self).issued() + 1
                &&& exists|now: VInstant|
                    final(self).pending() == old(self).pending().insert(
                        id,
                        Event { id, at: #[trigger] now.plus(in_dur), payload },
                    )
                &&& old(self).clock().driven() ==> final(self).pending()
                    == old(self).pending().insert(
                    id,
                    Event { id, at: old(self).clock().instant().plus(in_dur), payload },
                )
            },
            r matches Err(back) ==> {
                &&& back == payload
                &&& final(self).issued() == old(self).issued()
                &&& final(self).pending() == old(self).pending()
            },
    {
        let now = self.clock.now();
        let at = now + in_dur;
        assert(at == now.plus(in_dur));
        self.schedule_at(at, payload)
    }

    /// Cancels the event `id`. Nothing happens if no such event is pending.
    pub fn cancel(&mut self, id: EventId)
        requires
            old(self).wf(),
        ensures
            final(self).wf(),
            final(self).clock() == old(self).clock(),
            final(self).issued() == old(self).issued(),
            final(self).pending() == old(self).pending().remove(id),
    {
        queue_remove(&mut self.queue, id.0);
        self.events.remove(&id.0);
        assert(self.pending() =~= old(self).pending().remove(id));
    }

    /// Gives the pending event `id` a new instant, a new payload, or both,
    /// and says whether the event was pending. The event keeps its id, and
    /// with it its place among events of one instant.
    #[verifier::rlimit(50)]
    pub fn modify_event(
        &mut self,
        id: EventId,
        new_at: Option<VInstant>,
        new_payload: Option<T>,
    ) -> (found: bool)
        requires
            old(self).wf(),
        ensures
            final(self).wf(),
            final(self).clock() == old(self).clock(),
            final(self).issued() == old(self).issued(),
            found == old(self).pending().contains_key(id),
            found ==> final(self).pending() == old(self).pending().insert(
                id,
                Event {
                    id,
                    at: match new_at {
                        Some(at) => at,
                        None => old(self).pending()[id].at,
                    },
                    payload: match new_payload {
                        Some(payload) => payload,
                        None => old(self).pending()[id].payload,
                    },
                },
            ),
            !found ==> final(self).pending() == old(self).pending(),
    {
        match queue_key(&self.queue, id.0) {
            Some(_key) => {
                if let Some(payload) = new_payload {
                    self.events.insert(id.0, payload);
                }
                if let Some(at) = new_at {
                    queue_rekey(&mut self.queue, id.0, at.0, id.0);
                }
                assert(self.pending() =~= old(self).pending().insert(
                    id,
                    Event {
                        id,
                        at: match new_at {
                            Some(at) => at,
                            None => old(self).pending()[id].at,
                        },
                        payload: match new_payload {
                            Some(payload) => payload,
                            None => old(self).pending()[id].payload,
                        },
                    },
                ));
                true
            },
            None => {
                assert(self.pending() =~= old(self).pending());
                false
            },
        }
    }

    /// The scheduler's clock, to drive virtual time directly.
    pub fn clock_mut(&mut self) -> (clock: &mut C)
        ensures
            *clock == old(self).clock(),
            final(self).clock() == *final(clock),
            final(self).issued() == old(self).issued(),
            final(self).pending() == old(self).pending(),
            final(self).wf() == old(self).wf(),
    {
        &mut self.clock
    }

    /// What the scheduler's clock reads now.
    pub fn now(&self) -> (t: VInstant)
        ensures
            self.clock().driven() ==> t == self.clock().instant(),
    {
        self.clock.now()
    }

    /// Fires the next event if it is due: where a pending event lies at or
    /// before `target`, it moves the clock to the instant of the one that
    /// fires first, takes that event out and returns it. Where none does, it
    /// changes nothing.
    #[verifier::rlimit(50)]
    pub fn pop_due(&mut self, target: VInstant) -> (fired: Option<Event<T>>)
        requires
            old(self).wf(),
        ensures
            final(self).wf(),
            final(self).issued() == old(self).issued(),
            fired is Some <==> any_due(old(self).pending(), target),
            fired matches Some(ev) ==> {
                &&& ev.due(target)
                &&& fires_first(old(self).pending(), ev.id)
                &&& old(self).pending()[ev.id] == ev
                &&& final(self).pending() == old(self).pending().remove(ev.id)
                &&& old(self).clock().driven() ==> final(self).clock().driven()
                &&& old(self).clock().driven() ==> final(self).clock().instant() == ev.at
            },
            fired is None ==> {
                &&& final(self).pending() == old(self).pending()
                &&& final(self).clock() == old(self).clock()
            },
    {
        let top = queue_peek(&self.queue);
        match top {
            None => {
                assert(!any_due(self.pending(), target));
                None
            },
            Some((id, nanos, seq)) => {
                proof {
                    self.lemma_key_le_is_fires_first(id);
                }
                if nanos > target.0 {
                    proof {
                        crate::event::law_first_not_due_means_none_due(
                            self.pending(),
                            EventId(id),
                            target,
                        );
                    }
                    None
                } else {
                    let popped = queue_pop(&mut self.queue);
                    assert(popped.is_some());
                    assert(popped.unwrap().0 == id);
                    let removed = self.events.remove(&id);
                    assert(removed.is_some());
                    let payload = removed.unwrap();
                    let at = VInstant(nanos);
                    let delta = at - self.clock.now();
                    self.clock.advance(delta);
                    assert(self.pending() =~= old(self).pending().remove(EventId(id)));
                    let ev = Event { id: EventId(id), at, payload };
                    assert(old(self).pending()[ev.id].due(target));
                    Some(ev)
                }
            },
        }
    }

    /// Drains the scheduler up to `target` and returns what fired, in the
    /// order in which it fired: every pending event at or before `target`,
    /// earliest first, and events of one instant in the order in which they
    /// were scheduled. At the end the clock has been moved on to `target`.
    #[verifier::rlimit(50)]
    pub fn drain_until(&mut self, target: VInstant) -> (fired: Vec<Event<T>>)
        requires
            old(self).wf(),
        ensures
            final(self).wf(),
            final(self).issued() == old(self).issued(),
            is_drain(fired@, old(self).pending(), target),
            final(self).pending() == left_after(old(self).pending(), target),
            old(self).clock().driven() ==> final(self).clock().driven(),
            old(self).clock().driven() ==> final(self).clock().instant() == target,
    {
        let ghost before = self.pending();
        let ghost driven = self.clock().driven();
        let mut fired: Vec<Event<T>> = Vec::new();
        loop
            invariant
                self.wf(),
                self.issued() == old(self).issued(),
                driven ==> self.clock().driven(),
                forall|id: EventId| #[trigger]
                    self.pending().contains_key(id) ==> before.contains_key(id)
                        && self.pending()[id] == before[id],
                forall|id: EventId|
                    before.contains_key(id) && !self.pending().contains_key(id) ==> exists|i: int|
                        0 <= i < fired@.len() && (#[trigger] fired@[i]).id == id,
                forall|i: int|
                    0 <= i < fired@.len() ==> before.contains_key((#[trigger] fired@[i]).id)
                        && before[fired@[i].id] == fired@[i] && fired@[i].due(target),
                forall|i: int, j: int|
                    0 <= i < j < fired@.len() ==> (#[trigger] fired@[i]).fires_before(
                        #[trigger] fired@[j],
                    ),
                forall|i: int, id: EventId|
                    0 <= i < fired@.len() && self.pending().contains_key(id) ==> (
                    #[trigger] fired@[i]).fires_before(#[trigger] self.pending()[id]),
            ensures
                !any_due(self.pending(), target),
            decreases self.pending().dom().len(),
        {
            proof {
                self.lemma_pending_is_sound();
            }
            let ghost held = self.pending();
            let ghost so_far = fired@;
            match self.pop_due(target) {
                Some(ev) => {
                    let ghost event = ev;
                    fired.push(ev);
                    proof {
                        assert(fired@ == so_far.push(event));
                        assert forall|id: EventId|
                            before.contains_key(id) && !self.pending().contains_key(
                                id,
                            ) implies exists|i: int|
                            0 <= i < fired@.len() && (#[trigger] fired@[i]).id == id by {
                            if held.contains_key(id) {
                                assert(id == event.id);
                                assert(fired@[so_far.len() as int].id == id);
                            } else {
                                let i = choose|i: int|
                                    0 <= i < so_far.len() && (#[trigger] so_far[i]).id == id;
                                assert(fired@[i] == so_far[i]);
                            }
                        }
                        assert forall|i: int, j: int| 0 <= i < j < fired@.len() implies (
                        #[trigger] fired@[i]).fires_before(#[trigger] fired@[j]) by {
                            if j == so_far.len() {
                                assert(fired@[i] == so_far[i]);
                                assert(so_far[i].fires_before(held[event.id]));
                            } else {
                                assert(fired@[i] == so_far[i]);
                                assert(fired@[j] == so_far[j]);
                            }
                        }
                        assert forall|i: int, id: EventId|
                            0 <= i < fired@.len() && self.pending().contains_key(id) implies (
                        #[trigger] fired@[i]).fires_before(#[trigger] self.pending()[id]) by {
                            assert(held.contains_key(id) && id != event.id);
                            assert(self.pending()[id] == held[id]);
                            if i == so_far.len() {
                                assert(held[event.id].fires_before(held[id]));
                            } else {
                                assert(fired@[i] == so_far[i]);
                                assert(so_far[i].fires_before(held[id]));
                            }
                        }
                        assert forall|i: int| 0 <= i < fired@.len() implies before.contains_key(
                            (#[trigger] fired@[i]).id,
                        ) && before[fired@[i].id] == fired@[i] && fired@[i].due(target) by {
                            if i < so_far.len() {
                                assert(fired@[i] == so_far[i]);
                            } else {
                                assert(held.contains_key(event.id));
                            }
                        }
                    }
                },
                None => {
                    break ;
                },
            }
        }
        let remaining = target - self.clock.now();
        self.clock.advance(remaining);
        proof {
            assert forall|id: EventId| self.pending().contains_key(id) implies !before[id].due(
                target,
            ) by {
                assert(self.pending()[id] == before[id]);
            }
            assert forall|id: EventId|
                before.contains_key(id) && !self.pending().contains_key(id) implies before[id].due(
                target,
            ) by {
                let i = choose|i: int| 0 <= i < fired@.len() && (#[trigger] fired@[i]).id == id;
                assert(before[fired@[i].id] == fired@[i]);
            }
            assert(self.pending() =~= left_after(before, target));
        }
        fired
    }

    /// Drains the scheduler up to `target`: as long as a pending event lies
    /// at or before `target`, it fires the one that fires first, as
    /// [`Scheduler::pop_due`] does, and hands what the clock then reads and
    /// the event's payload to `on_event`. At the end it moves the clock on
    /// to `target`.
    #[verifier::rlimit(50)]
    pub fn run_until<F: FnMut(VInstant, T)>(&mut self, target: VInstant, mut on_event: F)
        requires
            old(self).wf(),
            forall|t: VInstant, payload: T| call_requires(on_event, (t, payload)),
        ensures
            final(self).wf(),
            final(self).issued() == old(self).issued(),
            final(self).pending() == left_after(old(self).pending(), target),
            old(self).clock().driven() ==> final(self).clock().driven(),
            old(self).clock().driven() ==> final(self).clock().instant() == target,
    {
        let ghost before = self.pending();
        let ghost driven = self.clock().driven();
        loop
            invariant
                self.wf(),
                self.issued() == old(self).issued(),
                forall|t: VInstant, payload: T| call_requires(on_event, (t, payload)),
                driven ==> self.clock().driven(),
                forall|id: EventId| #[trigger]
                    self.pending().contains_key(id) ==> before.contains_key(id)
                        && self.pending()[id] == before[id],
                forall|id: EventId|
                    before.contains_key(id) && !self.pending().contains_key(id) ==> (
                    #[trigger] before[id]).due(target),
            ensures
                !any_due(self.pending(), target),
            decreases self.pending().dom().len(),
        {
            proof {
                self.lemma_pending_is_sound();
            }
            match self.pop_due(target) {
                Some(ev) => {
                    let t = self.clock.now();
                    on_event(t, ev.payload);
                },
                None => {
                    break ;
                },
            }
        }
        let remaining = target - self.clock.now();
        self.clock.advance(remaining);
        assert forall|id: EventId| self.pending().contains_key(id) implies !before[id].due(
            target,
        ) by {
            assert(self.pending()[id] == before[id]);
        }
        assert(self.pending() =~= left_after(before, target));
    }

    /// The queue's least key belongs to the event that fires first.
    proof fn lemma_key_le_is_fires_first(&self, id: u64)
        requires
            self.wf(),
            queue_entries(self.queue).contains_key(id),
            forall|other: u64|
                queue_entries(self.queue).contains_key(other) ==> key_le(
                    queue_entries(self.queue)[id],
                    #[trigger] queue_entries(self.queue)[other],
                ),
        ensures
            fires_first(self.pending(), EventId(id)),
            self.pending()[EventId(id)].at == VInstant(queue_entries(self.queue)[id].0),
    {
        assert forall|other: EventId|
            self.pending().contains_key(other) && other != EventId(id) implies self.pending()[EventId(
                id,
            )].fires_before(#[trigger] self.pending()[other]) by {
            assert(key_le(queue_entries(self.queue)[id], queue_entries(self.queue)[other.0]));
        }
    }
}

} // verus!
