use kairos::{Clock, Event, EventId, ManualClock, Scheduler, VDuration, VInstant};
use std::collections::hash_map::DefaultHasher;
use std::hash::{Hash, Hasher};

#[test]
fn scheduler_runs_events_in_order() {
    let clock = ManualClock::new();
    let mut scheduler = Scheduler::<&str, _>::new(clock);

    let _ = scheduler.schedule_in(VDuration::from_secs(10), "event_10s").unwrap();
    let _ = scheduler.schedule_in(VDuration::from_secs(5), "event_5s").unwrap();
    let _ = scheduler.schedule_in(VDuration::from_secs(15), "event_15s").unwrap();

    let mut processed_events = Vec::new();
    let target_time = scheduler.now() + VDuration::from_secs(20);

    scheduler.run_until(target_time, |time, payload| {
        processed_events.push((time, payload));
    });

    assert_eq!(processed_events.len(), 3);
    assert_eq!(processed_events[0].0.0 / 1_000_000_000, 5);
    assert_eq!(processed_events[0].1, "event_5s");
    assert_eq!(processed_events[1].0.0 / 1_000_000_000, 10);
    assert_eq!(processed_events[1].1, "event_10s");
    assert_eq!(processed_events[2].0.0 / 1_000_000_000, 15);
    assert_eq!(processed_events[2].1, "event_15s");

    assert_eq!(scheduler.now(), target_time);
}

#[test]
fn scheduler_run_until_stops_at_target() {
    let clock = ManualClock::new();
    let mut scheduler = Scheduler::<&str, _>::new(clock);

    let _ = scheduler.schedule_in(VDuration::from_secs(5), "event_5s").unwrap();
    let _ = scheduler.schedule_in(VDuration::from_secs(15), "event_15s").unwrap();

    let mut processed_events = Vec::new();
    let target_time = scheduler.now() + VDuration::from_secs(10);

    scheduler.run_until(target_time, |time, payload| {
        processed_events.push((time, payload));
    });

    assert_eq!(processed_events.len(), 1);
    assert_eq!(processed_events[0].0.0 / 1_000_000_000, 5);
    assert_eq!(processed_events[0].1, "event_5s");

    assert_eq!(scheduler.now(), target_time);
}

#[test]
fn scheduler_clock_mut() {
    let clock = ManualClock::new();
    let mut scheduler = Scheduler::<(), _>::new(clock);
    scheduler.clock_mut().advance(VDuration::from_secs(10));
    assert_eq!(scheduler.now().0 / 1_000_000_000, 10);
}

#[test]
fn event_ordering() {
    let event1 = Event { id: EventId(0), at: VInstant(100), payload: "event1" };
    let event2 = Event { id: EventId(1), at: VInstant(200), payload: "event2" };
    let event3 = Event { id: EventId(2), at: VInstant(100), payload: "event3" };

    assert!(event1 > event2);
    assert!(event2 < event1);
    assert_eq!(event1, event3);
}

#[test]
fn run_until_break() {
    let clock = ManualClock::new();
    let mut scheduler = Scheduler::<&str, _>::new(clock);
    let _ = scheduler.schedule_in(VDuration::from_secs(10), "event").unwrap();
    let target = scheduler.now() + VDuration::from_secs(5);
    scheduler.run_until(target, |_, _| unreachable!());
    assert_eq!(scheduler.now(), target);
}

#[test]
fn event_cancellation() {
    let clock = ManualClock::new();
    let mut scheduler = Scheduler::<&str, _>::new(clock);

    let event_to_cancel = scheduler.schedule_in(VDuration::from_secs(5), "cancelled").unwrap();
    let _ = scheduler.schedule_in(VDuration::from_secs(10), "not_cancelled").unwrap();

    scheduler.cancel(event_to_cancel);

    let mut processed_events = Vec::new();
    let target_time = scheduler.now() + VDuration::from_secs(20);

    scheduler.run_until(target_time, |_, payload| {
        processed_events.push(payload);
    });

    assert_eq!(processed_events.len(), 1);
    assert_eq!(processed_events[0], "not_cancelled");
}

#[test]
fn event_modification() {
    let clock = ManualClock::new();
    let mut scheduler = Scheduler::<&str, _>::new(clock);

    let event_id = scheduler.schedule_in(VDuration::from_secs(10), "event_10s").unwrap();
    scheduler.modify_event(event_id, Some(VInstant(VDuration::from_secs(5).0)), Some("event_5s"));

    let mut processed_events = Vec::new();
    let target_time = scheduler.now() + VDuration::from_secs(20);

    scheduler.run_until(target_time, |time, payload| {
        processed_events.push((time, payload));
    });

    assert_eq!(processed_events.len(), 1);
    assert_eq!(processed_events[0].0.0 / 1_000_000_000, 5);
    assert_eq!(processed_events[0].1, "event_5s");
}

#[derive(Hash)]
struct SimulationState {
    time: u64,
    value: u32,
}

fn run_simulation(clock: ManualClock) -> u64 {
    let mut scheduler = Scheduler::<u32, _>::new(clock);
    let mut state = SimulationState { time: 0, value: 0 };

    let _ = scheduler.schedule_in(VDuration::from_secs(1), 10).unwrap();
    let _ = scheduler.schedule_in(VDuration::from_secs(2), 20).unwrap();
    let _ = scheduler.schedule_in(VDuration::from_secs(3), 30).unwrap();

    let target_time = scheduler.now() + VDuration::from_secs(5);
    scheduler.run_until(target_time, |time, payload| {
        state.time = time.0;
        state.value += payload;
    });

    let mut hasher = DefaultHasher::new();
    state.hash(&mut hasher);
    hasher.finish()
}

#[test]
fn test_determinism_manual_clock() {
    let first_hash = run_simulation(ManualClock::new());
    for _ in 1..1000 {
        let hash = run_simulation(ManualClock::new());
        assert_eq!(first_hash, hash);
    }
}

#[test]
fn equal_instants_fire_in_scheduling_order() {
    let mut scheduler = Scheduler::<u32, _>::new(ManualClock::new());
    let mut ids = Vec::new();
    for payload in 0..64u32 {
        ids.push(scheduler.schedule_in(VDuration::from_secs(7), payload).unwrap());
    }
    let early = scheduler.schedule_in(VDuration::from_secs(1), 1000).unwrap();
    assert_eq!(early, EventId(64));
    assert_eq!(ids[0], EventId(0));
    assert_eq!(ids[63], EventId(63));

    let mut fired = Vec::new();
    scheduler.run_until(VInstant(7_000_000_000), |time, payload| fired.push((time.0, payload)));
    assert_eq!(fired.len(), 65);
    assert_eq!(fired[0], (1_000_000_000, 1000));
    for (i, entry) in fired[1..].iter().enumerate() {
        assert_eq!(*entry, (7_000_000_000, i as u32));
    }
}

#[test]
fn pop_due_hands_out_one_event_at_a_time() {
    let mut scheduler = Scheduler::<&str, _>::new(ManualClock::new());
    let late = scheduler.schedule_at(VInstant(30), "late").unwrap();
    let soon = scheduler.schedule_at(VInstant(10), "soon").unwrap();
    let tie = scheduler.schedule_at(VInstant(10), "tie").unwrap();

    assert!(scheduler.pop_due(VInstant(9)).is_none());
    assert_eq!(scheduler.now(), VInstant(0));

    let first = scheduler.pop_due(VInstant(20)).unwrap();
    assert_eq!((first.id, first.at, first.payload), (soon, VInstant(10), "soon"));
    assert_eq!(scheduler.now(), VInstant(10));

    let second = scheduler.pop_due(VInstant(20)).unwrap();
    assert_eq!((second.id, second.at, second.payload), (tie, VInstant(10), "tie"));

    assert!(scheduler.pop_due(VInstant(20)).is_none());
    assert_eq!(scheduler.now(), VInstant(10));

    let third = scheduler.pop_due(VInstant(30)).unwrap();
    assert_eq!((third.id, third.at, third.payload), (late, VInstant(30), "late"));
    assert_eq!(scheduler.now(), VInstant(30));
    assert!(scheduler.pop_due(VInstant(u64::MAX)).is_none());
}

#[test]
fn cancel_of_an_unknown_id_changes_nothing() {
    let mut scheduler = Scheduler::<&str, _>::new(ManualClock::new());
    let only = scheduler.schedule_in(VDuration::from_secs(1), "only").unwrap();
    scheduler.cancel(EventId(99));
    let mut fired = Vec::new();
    scheduler.run_until(VInstant(1_000_000_000), |_, payload| fired.push(payload));
    assert_eq!(fired, vec!["only"]);
    // a fired event is gone: cancelling or modifying it finds nothing
    scheduler.cancel(only);
    assert!(!scheduler.modify_event(only, Some(VInstant(5)), Some("again")));
    let next = scheduler.schedule_in(VDuration::from_secs(1), "next").unwrap();
    assert_eq!(next, EventId(1));
}

#[test]
fn modify_keeps_what_is_not_given() {
    let mut scheduler = Scheduler::<&str, _>::new(ManualClock::new());
    let a = scheduler.schedule_at(VInstant(50), "a").unwrap();
    let b = scheduler.schedule_at(VInstant(40), "b").unwrap();
    assert!(scheduler.modify_event(a, Some(VInstant(40)), None));
    assert!(scheduler.modify_event(b, None, Some("b2")));
    assert!(scheduler.modify_event(a, None, None));
    assert!(!scheduler.modify_event(EventId(7), Some(VInstant(1)), Some("x")));
    let mut fired = Vec::new();
    scheduler.run_until(VInstant(100), |time, payload| fired.push((time, payload)));
    // moved to the instant of `b`, `a` still fires first: it was scheduled first
    assert_eq!(fired, vec![(VInstant(40), "a"), (VInstant(40), "b2")]);
    assert_eq!(scheduler.now(), VInstant(100));
}

#[test]
fn schedule_in_wraps_round_the_ring() {
    let mut clock = ManualClock::new();
    clock.advance(VDuration(u64::MAX - 4));
    let mut scheduler = Scheduler::<&str, _>::new(clock);
    let _ = scheduler.schedule_in(VDuration(10), "wrapped").unwrap();
    let fired = scheduler.pop_due(VInstant(5)).unwrap();
    assert_eq!(fired.at, VInstant(5));
    assert_eq!(scheduler.now(), VInstant(5));
}

#[test]
fn drain_to_an_earlier_target_still_lands_on_it() {
    let mut scheduler = Scheduler::<&str, _>::new(ManualClock::new());
    scheduler.clock_mut().advance(VDuration(100));
    let _ = scheduler.schedule_at(VInstant(200), "later").unwrap();
    scheduler.run_until(VInstant(50), |_, _| unreachable!());
    assert_eq!(scheduler.now(), VInstant(50));
}

#[test]
fn drain_until_returns_what_fired_in_order() {
    let mut scheduler = Scheduler::<&str, _>::new(ManualClock::new());
    let ten = scheduler.schedule_in(VDuration::from_secs(10), "event_10s").unwrap();
    let five = scheduler.schedule_in(VDuration::from_secs(5), "event_5s").unwrap();
    let fifteen = scheduler.schedule_in(VDuration::from_secs(15), "event_15s").unwrap();
    let also_ten = scheduler.schedule_in(VDuration::from_secs(10), "also_10s").unwrap();

    let fired = scheduler.drain_until(VInstant(10_000_000_000));
    let seen: Vec<_> = fired.iter().map(|ev| (ev.id, ev.at.0 / 1_000_000_000, ev.payload)).collect();
    assert_eq!(seen, vec![(five, 5, "event_5s"), (ten, 10, "event_10s"), (also_ten, 10, "also_10s")]);
    assert_eq!(scheduler.now(), VInstant(10_000_000_000));

    assert!(scheduler.drain_until(VInstant(14_999_999_999)).is_empty());
    assert_eq!(scheduler.now(), VInstant(14_999_999_999));

    let fired = scheduler.drain_until(VInstant(20_000_000_000));
    assert_eq!(fired.len(), 1);
    assert_eq!((fired[0].id, fired[0].payload), (fifteen, "event_15s"));
    assert_eq!(scheduler.now(), VInstant(20_000_000_000));
}

#[test]
fn drain_until_and_run_until_fire_the_same() {
    let delays = [7u64, 3, 9, 3, 1, 7, 7, 2, 8, 3];
    let mut by_handler = Scheduler::<usize, _>::new(ManualClock::new());
    let mut by_list = Scheduler::<usize, _>::new(ManualClock::new());
    for (i, delay) in delays.iter().enumerate() {
        let a = by_handler.schedule_in(VDuration(*delay), i).unwrap();
        let b = by_list.schedule_in(VDuration(*delay), i).unwrap();
        assert_eq!(a, b);
    }
    by_handler.cancel(EventId(4));
    by_list.cancel(EventId(4));
    let mut handled = Vec::new();
    by_handler.run_until(VInstant(7), |time, payload| handled.push((time, payload)));
    let listed: Vec<_> = by_list.drain_until(VInstant(7)).into_iter().map(|ev| (ev.at, ev.payload)).collect();
    assert_eq!(handled, listed);
    assert_eq!(
        listed,
        vec![
            (VInstant(2), 7),
            (VInstant(3), 1),
            (VInstant(3), 3),
            (VInstant(3), 9),
            (VInstant(7), 0),
            (VInstant(7), 5),
            (VInstant(7), 6),
        ]
    );
}
