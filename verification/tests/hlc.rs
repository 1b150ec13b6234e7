use kairos::{Clock, KairosHlc, KairosTs, KairosTs16, ManualClock, VDuration};

trait ManualClockExt {
    fn advance_secs(&mut self, secs: u64);
}

impl ManualClockExt for ManualClock {
    fn advance_secs(&mut self, secs: u64) {
        self.advance(VDuration::from_secs(secs));
    }
}

#[test]
fn clock_hlc_monotonic_local() {
    let mut hlc = KairosHlc::new(ManualClock::default(), 7);
    let a = hlc.now();
    let b = hlc.now();
    assert!(a < b);
}

#[test]
fn clock_hlc_observe_merges() {
    let mut c1 = KairosHlc::new(ManualClock::default(), 1);
    let mut c2 = KairosHlc::new(ManualClock::default(), 2);

    let t1 = c1.now();
    let _ = c2.observe(t1);
    let t2 = c2.now();
    assert!(t1 < t2);
}

#[test]
fn clock_hlc_no_regress_on_equal_phys() {
    let mut hlc = KairosHlc::new(ManualClock::default(), 1);
    let a = hlc.now();
    // same phys → logical must increase
    let b = hlc.now();
    assert!(b.phys_ns == a.phys_ns && b.log > a.log);
}

#[test]
fn clock_hlc_with_persisted_clamps() {
    let clk = ManualClock::default();
    let hlc = KairosHlc::with_persisted(clk, 9, 1_000);
    assert!(hlc.last().phys_ns >= 1_000);
}

#[test]
fn hlc_hlc_monotonic_local() {
    let mut hlc = KairosHlc::new(ManualClock::default(), 7);
    let a = hlc.now();
    let b = hlc.now();
    assert!(a < b);
}

#[test]
fn hlc_hlc_observe_merges() {
    let mut c1 = KairosHlc::new(ManualClock::default(), 1);
    let mut c2 = KairosHlc::new(ManualClock::default(), 2);

    let t1 = c1.now();
    let _ = c2.observe(t1);
    let t2 = c2.now();
    assert!(t1 < t2);
}

#[test]
fn hlc_hlc_no_regress_on_equal_phys() {
    let mut hlc = KairosHlc::new(ManualClock::default(), 1);
    let a = hlc.now();
    // same phys → logical must increase
    let b = hlc.now();
    assert!(b.phys_ns == a.phys_ns && b.log > a.log);
}

#[test]
fn hlc_hlc_with_persisted_clamps() {
    let clk = ManualClock::default();
    let hlc = KairosHlc::with_persisted(clk, 9, 1_000);
    assert!(hlc.last().phys_ns >= 1_000);
}

#[test]
fn hlc_observe_simple() {
    let mut clock = ManualClock::default();
    let mut hlc = KairosHlc::new(clock.clone(), 1);

    let incoming = KairosTs { phys_ns: VDuration::from_secs(20).0, log: 0, node: 2 };
    clock.advance_secs(20);
    let ts = hlc.observe(incoming);
    assert_eq!(ts.phys_ns, VDuration::from_secs(20).0);
}

#[test]
fn hlc_observe_same_phys_and_last() {
    let mut hlc = KairosHlc::new(ManualClock::default(), 1);
    let mut hlc2 = KairosHlc::new(ManualClock::default(), 2);

    let ts1 = hlc.now();
    let ts2 = hlc2.observe(ts1);

    assert_eq!(ts2.phys_ns, ts1.phys_ns);
    assert_eq!(ts2.log, ts1.log + 1);
}

#[test]
fn hlc_observe_last_greater() {
    let mut clock = ManualClock::default();
    let mut hlc = KairosHlc::new(clock.clone(), 1);

    clock.advance_secs(10);
    let mut hlc2 = KairosHlc::new(clock, 2);

    let ts1 = hlc.now();
    let ts2 = hlc2.observe(ts1);

    assert_eq!(ts2.phys_ns, hlc2.last().phys_ns);
    assert_eq!(ts2.log, 0);
}

#[test]
fn hlc_observe_incoming_greater() {
    let clock = ManualClock::default();
    let mut hlc = KairosHlc::new(clock.clone(), 1);

    let mut clock2 = ManualClock::default();
    clock2.advance_secs(10);
    let mut hlc2 = KairosHlc::new(clock2, 2);

    let ts1 = hlc2.now();
    let ts2 = hlc.observe(ts1);

    assert_eq!(ts2.phys_ns, ts1.phys_ns);
    assert_eq!(ts2.log, ts1.log + 1);
}

#[test]
fn hlc_observe_else_case() {
    let mut clock_for_hlc = ManualClock::default();
    clock_for_hlc.advance_secs(30); // hlc's clock is at 30s
    let mut hlc = KairosHlc::new(clock_for_hlc, 1); // hlc.last is {0,0,1}

    let incoming = KairosTs { phys_ns: VDuration::from_secs(10).0, log: 0, node: 2 };

    let ts2 = hlc.observe(incoming);

    assert_eq!(ts2.phys_ns, VDuration::from_secs(30).0);
    assert_eq!(ts2.log, 0);
}

#[test]
fn hlc_observe_incoming_phys_eq_last_phys() {
    let mut clock_for_hlc = ManualClock::default();
    clock_for_hlc.advance_secs(10); // hlc's clock is at 10s
    let mut hlc = KairosHlc::new(clock_for_hlc, 1); // hlc.last is {0,0,1}

    // Call now() to set hlc.last.phys_ns to 10s
    let _ = hlc.now(); // hlc.last is now {10s, 0, 1}

    let incoming = KairosTs { phys_ns: VDuration::from_secs(10).0, log: 5, node: 2 };

    let ts2 = hlc.observe(incoming);

    assert_eq!(ts2.phys_ns, VDuration::from_secs(10).0);
    assert_eq!(ts2.log, 6);
}

#[test]
fn kairos_ts_from() {
    let ts = KairosTs { phys_ns: 1, log: 2, node: 3 };
    let ts16: KairosTs16 = ts.into();
    assert_eq!(ts16.phys_ns, 1);
    assert_eq!(ts16.log, 2);
    assert_eq!(ts16.node, 3);

    let ts2: KairosTs = ts16.into();
    assert_eq!(ts2, ts);
}

#[test]
fn tick_resets_the_counter_when_time_moves() {
    let last = KairosTs { phys_ns: 10, log: 4, node: 3 };
    assert_eq!(last.tick(11), KairosTs { phys_ns: 11, log: 0, node: 3 });
    assert_eq!(last.tick(10), KairosTs { phys_ns: 10, log: 5, node: 3 });
    assert_eq!(last.tick(2), KairosTs { phys_ns: 10, log: 5, node: 3 });
}

#[test]
fn tick_wraps_the_counter() {
    let last = KairosTs { phys_ns: 10, log: u32::MAX, node: 3 };
    let next = last.tick(10);
    assert_eq!(next, KairosTs { phys_ns: 10, log: 0, node: 3 });
    assert!(next < last);
    // while time moves, the full counter does no harm
    assert!(last < last.tick(11));
}

#[test]
fn merge_covers_its_four_cases() {
    let last = KairosTs { phys_ns: 10, log: 2, node: 1 };
    // three-way tie
    let tied = KairosTs { phys_ns: 10, log: 5, node: 2 };
    assert_eq!(last.merge(tied, 10), KairosTs { phys_ns: 10, log: 6, node: 1 });
    assert_eq!(last.merge(tied, 3), KairosTs { phys_ns: 10, log: 6, node: 1 });
    let lower = KairosTs { phys_ns: 10, log: 1, node: 2 };
    assert_eq!(last.merge(lower, 10), KairosTs { phys_ns: 10, log: 3, node: 1 });
    // the local timestamp dominates
    let behind = KairosTs { phys_ns: 9, log: 8, node: 2 };
    assert_eq!(last.merge(behind, 4), KairosTs { phys_ns: 10, log: 3, node: 1 });
    // the incoming timestamp dominates
    let ahead = KairosTs { phys_ns: 12, log: 8, node: 2 };
    assert_eq!(last.merge(ahead, 11), KairosTs { phys_ns: 12, log: 9, node: 1 });
    assert_eq!(last.merge(ahead, 12), KairosTs { phys_ns: 12, log: 9, node: 1 });
    // the clock is ahead of both
    assert_eq!(last.merge(ahead, 13), KairosTs { phys_ns: 13, log: 0, node: 1 });
}

#[test]
fn merge_never_regresses() {
    let lasts = [
        KairosTs { phys_ns: 0, log: 0, node: 1 },
        KairosTs { phys_ns: 10, log: 2, node: 1 },
        KairosTs { phys_ns: 10, log: u32::MAX - 1, node: 9 },
    ];
    let incomings = [
        KairosTs { phys_ns: 0, log: 0, node: 2 },
        KairosTs { phys_ns: 10, log: 7, node: 0 },
        KairosTs { phys_ns: 11, log: u32::MAX - 1, node: 2 },
    ];
    for last in lasts {
        for incoming in incomings {
            for physical in [0u64, 9, 10, 11, 12, u64::MAX] {
                let merged = last.merge(incoming, physical);
                assert!(merged > last);
                assert!(merged > incoming);
                assert_eq!(merged.node, last.node);
            }
        }
    }
}

#[test]
fn merge_wraps_the_counter() {
    let last = KairosTs { phys_ns: 10, log: 2, node: 1 };
    let full = KairosTs { phys_ns: 10, log: u32::MAX, node: 2 };
    let merged = last.merge(full, 10);
    assert_eq!(merged, KairosTs { phys_ns: 10, log: 0, node: 1 });
    assert!(merged < full);
}

#[test]
fn resume_takes_the_later_of_clock_and_watermark() {
    assert_eq!(KairosTs::resume(0, 1_000, 9), KairosTs { phys_ns: 1_000, log: 0, node: 9 });
    assert_eq!(KairosTs::resume(2_000, 1_000, 9), KairosTs { phys_ns: 2_000, log: 0, node: 9 });
    let mut clock = ManualClock::new();
    clock.advance(VDuration::from_nanos(5_000));
    let hlc = KairosHlc::with_persisted(clock, 4, 1_000);
    assert_eq!(hlc.last(), KairosTs { phys_ns: 5_000, log: 0, node: 4 });
    let hlc = KairosHlc::with_persisted(ManualClock::new(), 4, 1_000);
    assert_eq!(hlc.last(), KairosTs { phys_ns: 1_000, log: 0, node: 4 });
}

#[test]
fn timestamps_order_by_physical_then_logical_then_node() {
    let base = KairosTs { phys_ns: 5, log: 5, node: 5 };
    assert!(KairosTs { phys_ns: 4, log: 9, node: 9 } < base);
    assert!(KairosTs { phys_ns: 5, log: 4, node: 9 } < base);
    assert!(KairosTs { phys_ns: 5, log: 5, node: 4 } < base);
    assert!(KairosTs { phys_ns: 6, log: 0, node: 0 } > base);
    assert!(base <= base && base >= base);
    assert_eq!(base.cmp(&KairosTs { phys_ns: 5, log: 5, node: 6 }), core::cmp::Ordering::Less);
    assert_eq!(base.max(KairosTs { phys_ns: 5, log: 6, node: 0 }).log, 6);
    assert_eq!(KairosTs::default(), KairosTs { phys_ns: 0, log: 0, node: 0 });
}

#[test]
fn now_follows_the_clock() {
    let mut clock = ManualClock::new();
    clock.advance(VDuration::from_secs(1));
    let mut hlc = KairosHlc::new(clock, 3);
    assert_eq!(hlc.last(), KairosTs { phys_ns: 0, log: 0, node: 3 });
    assert_eq!(hlc.now(), KairosTs { phys_ns: 1_000_000_000, log: 0, node: 3 });
    assert_eq!(hlc.now(), KairosTs { phys_ns: 1_000_000_000, log: 1, node: 3 });
    assert_eq!(hlc.last(), KairosTs { phys_ns: 1_000_000_000, log: 1, node: 3 });
}

#[test]
fn compact_record_round_trips() {
    let ts = KairosTs { phys_ns: u64::MAX, log: u32::MAX, node: 7 };
    let wire = KairosTs16::from(ts);
    assert_eq!(wire, KairosTs16 { phys_ns: u64::MAX, log: u32::MAX, node: 7 });
    assert_eq!(KairosTs::from(wire), ts);
    assert_eq!(core::mem::size_of::<KairosTs16>(), 16);
}
