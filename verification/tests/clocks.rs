use kairos::{Clock, ManualClock, Q32_32Rate, Rate, RateClock, StdClock, VDuration, VInstant};

#[test]
fn monotonicidade_manual_clock() {
    let mut c = ManualClock::new();
    let t0 = c.now();
    c.advance(VDuration::from_nanos(1));
    let t1 = c.now();
    assert!(t1 > t0);
}

#[test]
fn soma_subtracao_wrapping() {
    let mut c = ManualClock::new();
    c.advance(VDuration::from_nanos(u64::MAX));

    c.advance(VDuration::from_nanos(10));
    let _ = c.now();
}

#[test]
fn rate_clock_new() {
    let clock: RateClock = RateClock::new();
    assert_eq!(clock.now(), VInstant(0));
}

#[test]
fn rate_clock_with_rate() {
    let mut clock = RateClock::with_rate(2, 1); // 2x speed
    clock.tick(VDuration::from_secs(1));
    assert_eq!(clock.now(), VInstant::from(VDuration::from_secs(2)));
}

#[test]
fn rate_clock_set_rate() {
    let mut clock: RateClock = RateClock::new();
    clock.set_rate(1, 2); // 0.5x speed
    clock.tick(VDuration::from_secs(2));
    assert_eq!(clock.now(), VInstant::from(VDuration::from_secs(1)));
}

#[test]
fn rate_clock_set_rate_den_zero() {
    let mut clock: RateClock = RateClock::new();
    clock.set_rate(1, 0); // den = 0 should be treated as 1
    clock.tick(VDuration::from_secs(1));
    assert_eq!(clock.now(), VInstant::from(VDuration::from_secs(1)));
}

#[test]
fn rate_clock_advance() {
    let mut clock: RateClock = RateClock::new();
    clock.advance(VDuration::from_secs(10));
    assert_eq!(clock.now(), VInstant::from(VDuration::from_secs(10)));
}

#[test]
fn std_clock_now() {
    let clock = StdClock::new();
    let t0 = clock.now();
    let start = std::time::Instant::now();
    while start.elapsed() < std::time::Duration::from_millis(10) {
        std::hint::spin_loop();
    }
    let t1 = clock.now();
    assert!(t1 > t0);
}

#[test]
fn std_clock_advance() {
    let mut clock = StdClock::new();
    let t0 = clock.now();
    clock.advance(VDuration::from_secs(1)); // should be a no-op
    let t1 = clock.now();
    assert!(t1 >= t0);
}

#[test]
fn manual_clock_now_strict() {
    let clock = ManualClock::new();
    let _ = clock.now_strict();
}

#[test]
fn manual_clock_moves_exactly_and_wraps() {
    let mut c = ManualClock::new();
    assert_eq!(c.now(), VInstant(0));
    assert_eq!(c.now_strict(), VInstant(0));
    c.advance(VDuration::from_nanos(u64::MAX));
    assert_eq!(c.now(), VInstant(u64::MAX));
    c.advance(VDuration::from_nanos(10));
    assert_eq!(c.now(), VInstant(9));
    assert_eq!(c.now_strict(), VInstant(9));
    let copy = c.clone();
    c.advance(VDuration::from_nanos(1));
    assert_eq!(copy.now(), VInstant(9));
    assert_eq!(c.now(), VInstant(10));
    assert_eq!(ManualClock::default().now(), VInstant(0));
}

#[test]
fn std_clock_is_not_far_from_its_origin() {
    let clock = StdClock::new();
    let t = clock.now();
    // the host cannot have taken an hour to get here
    assert!(t.0 < 3_600_000_000_000);
}

#[test]
fn q32_32_scaling_rounds_down() {
    let one = Q32_32Rate::default();
    assert_eq!(one.scale(VDuration(12_345)), VDuration(12_345));
    assert_eq!(one.scale(VDuration(u64::MAX)), VDuration(u64::MAX));

    let mut clock = RateClock::with_rate(1, 3);
    clock.tick(VDuration(3_000_000_000));
    // the factor is 2^32 / 3 rounded down, so the tick falls just short of a second
    assert_eq!(clock.now(), VInstant(999_999_999));

    let mut clock = RateClock::with_rate(3, 1);
    clock.tick(VDuration::from_millis(200));
    assert_eq!(clock.now(), VInstant(600_000_000));

    let mut clock = RateClock::with_rate(0, 5);
    clock.tick(VDuration::from_secs(9));
    assert_eq!(clock.now(), VInstant(0));
}

#[test]
fn rate_clock_cuts_the_scaled_span_to_64_bits() {
    let mut clock = RateClock::with_rate(4, 1);
    clock.tick(VDuration(u64::MAX));
    // 4 * (2^64 - 1) mod 2^64
    assert_eq!(clock.now(), VInstant(u64::MAX - 3));
    // the largest rate: (2^32 - 1) / 1
    let mut clock = RateClock::with_rate(u32::MAX, 1);
    clock.tick(VDuration(1 << 40));
    assert_eq!(clock.now(), VInstant((((1u128 << 40) * (u32::MAX as u128)) % (1u128 << 64)) as u64));
}

#[test]
fn rate_clock_ticks_add_up() {
    let mut clock = RateClock::with_rate(2, 1);
    clock.tick(VDuration::from_secs(1));
    clock.advance(VDuration::from_secs(1));
    clock.set_rate(1, 2);
    clock.tick(VDuration::from_secs(4));
    assert_eq!(clock.now(), VInstant(5_000_000_000));
}

/// A rate that halves every span.
#[derive(Default)]
struct Half;

impl Rate for Half {
    fn scale(&self, duration: VDuration) -> VDuration {
        VDuration(duration.0 / 2)
    }
}

#[test]
fn rate_clock_takes_any_rate() {
    let mut clock: RateClock<Half> = RateClock::new();
    clock.tick(VDuration(9));
    assert_eq!(clock.now(), VInstant(4));
    clock.advance(VDuration(9));
    assert_eq!(clock.now(), VInstant(13));
    let mut clock: RateClock<Half> = RateClock::default();
    clock.tick(VDuration(u64::MAX));
    clock.tick(VDuration(u64::MAX));
    assert_eq!(clock.now(), VInstant(u64::MAX - 1));
}
