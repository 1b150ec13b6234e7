use kairos::civil::{civil_from_days, days_from_civil};
use kairos::{Calendar, Clock, ManualClock, VDuration, VInstant};

#[test]
fn get_now() {
    let mut c = ManualClock::new();
    let cal = Calendar::new().with_epoch_local(2025, 8, 11).with_tz_offset_secs(-3 * 3600);

    let cal2 = Calendar::new().with_epoch_local(2025, 8, 11);

    c.advance(VDuration::from_secs(12 * 3600 + 34 * 60 + 56));
    c.advance(VDuration::from_millis(789));

    let s = cal.format(c.now());
    let s2 = cal2.format(c.now());
    println!("{s} - {s2} - {:?}", c.now().0);
}

#[test]
fn calendar_local_e_utc() {
    let mut c = ManualClock::new();
    c.advance(VDuration::from_secs(12 * 3600 + 34 * 60 + 56));
    c.advance(VDuration::from_millis(789));
    println!("now_ns = {}", c.now().0);

    let cal_local = Calendar::new().with_epoch_local(2025, 8, 11).with_tz_offset_secs(-3 * 3600);
    let s_local = cal_local.format(c.now());
    println!("local = {s_local}");
    assert_eq!(s_local, "2025-08-11T12:34:56.789-03:00");

    let cal_utc = Calendar::new().with_epoch(2025, 8, 11).with_tz_offset_secs(-3 * 3600);
    let s_utc = cal_utc.format(c.now());
    println!("utc   = {s_utc}");
    assert_eq!(s_utc, "2025-08-11T09:34:56.789-03:00");
}

#[test]
fn calendar_anchor_sem_dobro_de_fuso() {
    let cal_local = Calendar::new().with_epoch_local(2025, 8, 11).with_tz_offset_secs(-3 * 3600);

    let mut c = ManualClock::new();
    c.advance(VDuration::from_secs(12 * 3600 + 34 * 60 + 56));
    c.advance(VDuration::from_millis(789));
    let s_local = cal_local.format(c.now());
    println!("local   = {s_local}");
    assert_eq!(s_local, "2025-08-11T12:34:56.789-03:00");

    let cal_utc = Calendar::new().with_epoch(2025, 8, 11).with_tz_offset_secs(-3 * 3600);

    let s_utc = cal_utc.format(c.now());
    println!("utc     = {s_utc}");
    assert_eq!(s_utc, "2025-08-11T09:34:56.789-03:00");
}

#[test]
fn calendar_to_civil_utc() {
    let cal = Calendar::new().with_epoch(2025, 1, 1);
    let t = VInstant::from(VDuration::from_secs(12 * 3600)); // 12 hours
    let (y, m, d, h, ..) = cal.to_civil(t);
    assert_eq!((y, m, d, h), (2025, 1, 1, 12));
}

#[test]
fn day_numbers_of_known_dates() {
    assert_eq!(days_from_civil(1970, 1, 1), 0);
    assert_eq!(days_from_civil(1969, 12, 31), -1);
    assert_eq!(days_from_civil(2000, 2, 29), 11_016);
    assert_eq!(days_from_civil(2000, 3, 1), 11_017);
    assert_eq!(days_from_civil(2025, 8, 11), 20_311);
    assert_eq!(days_from_civil(0, 3, 1), -719_468);
    assert_eq!(days_from_civil(1, 1, 1), -719_162);
    assert_eq!(days_from_civil(i32::MAX, 12, 31), 784_351_576_776);
    assert_eq!(days_from_civil(i32::MIN, 1, 1), -784_353_015_833);
}

#[test]
fn dates_of_known_day_numbers() {
    assert_eq!(civil_from_days(0), (1970, 1, 1));
    assert_eq!(civil_from_days(-1), (1969, 12, 31));
    assert_eq!(civil_from_days(11_016), (2000, 2, 29));
    assert_eq!(civil_from_days(11_017), (2000, 3, 1));
    assert_eq!(civil_from_days(20_311), (2025, 8, 11));
    assert_eq!(civil_from_days(-719_468), (0, 3, 1));
    assert_eq!(civil_from_days(-719_162), (1, 1, 1));
    assert_eq!(civil_from_days(784_351_576_776), (i32::MAX, 12, 31));
    // 1900 and 2100 are no leap years
    assert_eq!(civil_from_days(days_from_civil(1900, 2, 28) + 1), (1900, 3, 1));
    assert_eq!(civil_from_days(days_from_civil(2100, 2, 28) + 1), (2100, 3, 1));
    assert_eq!(civil_from_days(days_from_civil(2024, 2, 28) + 1), (2024, 2, 29));
}

#[test]
fn dates_round_trip_through_day_numbers() {
    let mut z = -719_468i64;
    let mut previous = civil_from_days(z - 1 + 1);
    assert_eq!(previous, (0, 3, 1));
    while z < 800_000 {
        let (y, m, d) = civil_from_days(z);
        assert!((1..=12).contains(&m));
        assert!((1..=31).contains(&d));
        assert_eq!(days_from_civil(y, m, d), z);
        assert!(previous <= (y, m, d));
        previous = (y, m, d);
        z += 97;
    }
}

#[test]
fn before_march_of_year_zero_the_last_day_of_an_era_still_converts() {
    // the one day of each earlier era whose era is not taken too low
    assert_eq!(civil_from_days(-719_469), (0, 2, 29));
    assert_eq!(days_from_civil(0, 2, 29), -719_469);
    assert_eq!(days_from_civil(-1, 12, 31), -719_529);
    // an earlier day that is not the last of its era does not come out as its date
    assert_eq!(civil_from_days(-719_470), (0, 2, 29));
    assert_eq!(civil_from_days(-719_529), (0, 1, 1));
    assert_eq!(civil_from_days(-800_000), (-221, 9, 5));
    assert_eq!(civil_from_days(-865_566), (-400, 2, 29));
    assert_eq!(days_from_civil(-400, 2, 29), -865_566);
}

#[test]
fn to_civil_splits_the_time_of_day() {
    let cal = Calendar::new();
    assert_eq!(cal.to_civil(VInstant(0)), (1970, 1, 1, 0, 0, 0, 0));
    let t = VInstant(86_399_999_999_999);
    assert_eq!(cal.to_civil(t), (1970, 1, 1, 23, 59, 59, 999));
    assert_eq!(cal.to_civil(VInstant(86_400_000_000_000)), (1970, 1, 2, 0, 0, 0, 0));
    // the last instant of the ring
    assert_eq!(cal.to_civil(VInstant(u64::MAX)), (2554, 7, 21, 23, 34, 33, 709));
}

#[test]
fn zone_offset_moves_a_universal_anchor_only() {
    let t = VInstant::from(VDuration::from_secs(3600));
    let west = Calendar::new().with_epoch(2025, 1, 1).with_tz_offset_secs(-2 * 3600);
    assert_eq!(west.to_civil(t), (2024, 12, 31, 23, 0, 0, 0));
    assert_eq!(west.format(t), "2024-12-31T23:00:00.000-02:00");
    let east = Calendar::new().with_epoch(2025, 1, 1).with_tz_offset_secs(5 * 3600 + 30 * 60);
    assert_eq!(east.to_civil(t), (2025, 1, 1, 6, 30, 0, 0));
    assert_eq!(east.format(t), "2025-01-01T06:30:00.000+05:30");
    let local = Calendar::new().with_epoch_local(2025, 1, 1).with_tz_offset_secs(-2 * 3600);
    assert_eq!(local.to_civil(t), (2025, 1, 1, 1, 0, 0, 0));
    assert_eq!(local.format(t), "2025-01-01T01:00:00.000-02:00");
    // setting the epoch again makes the anchor universal
    let again = local.with_epoch(2025, 1, 1);
    assert_eq!(again.to_civil(t), (2024, 12, 31, 23, 0, 0, 0));
}

#[test]
fn format_pads_and_signs_like_the_standard_formatter() {
    let t = VInstant(1_002_003_004_005);
    for (year, offset) in [(5, 0), (-5, -59), (12_345, 86_399), (-12_345, i32::MAX), (1970, -3600)]
    {
        let cal = Calendar::new().with_epoch(year, 3, 4).with_tz_offset_secs(offset);
        let (y, mo, d, h, mi, s, ms) = cal.to_civil(t);
        let sign = if offset >= 0 { '+' } else { '-' };
        let off = offset.unsigned_abs();
        let off_h = off / 3600;
        let off_m = (off % 3600) / 60;
        let expected = format!(
            "{y:04}-{mo:02}-{d:02}T{h:02}:{mi:02}:{s:02}.{ms:03}{sign}{off_h:02}:{off_m:02}"
        );
        assert_eq!(cal.format(t), expected);
    }
    let cal = Calendar::new().with_epoch(7, 1, 2);
    assert_eq!(cal.format(VInstant(0)), "0007-01-02T00:00:00.000+00:00");
    let cal = Calendar::new().with_epoch(-7, 3, 2);
    assert_eq!(Calendar::default().format(VInstant(0)), "1970-01-01T00:00:00.000+00:00");
    assert_eq!(cal.to_civil(VInstant(0)).1, 3);
}

#[test]
fn format_small_holds_the_same_text_where_it_fits() {
    let t = VInstant(45_296_789_000_000);
    let cal = Calendar::new().with_epoch_local(2025, 8, 11).with_tz_offset_secs(-3 * 3600);
    let small = cal.format_small(t).unwrap();
    assert_eq!(small.as_str(), "2025-08-11T12:34:56.789-03:00");
    assert_eq!(small.as_str(), cal.format(t));
    assert_eq!(small.len(), 29);

    // three more digits of year still fit in 32 bytes, four do not
    let cal = Calendar::new().with_epoch(1_234_567, 1, 2);
    assert_eq!(cal.format(VInstant(0)), "1234567-01-02T00:00:00.000+00:00");
    assert_eq!(cal.format_small(VInstant(0)).unwrap().as_str(), "1234567-01-02T00:00:00.000+00:00");
    let cal = Calendar::new().with_epoch(12_345_678, 1, 2);
    assert_eq!(cal.format(VInstant(0)).len(), 33);
    assert!(cal.format_small(VInstant(0)).is_none());
    // a sign takes a byte as a digit does
    let cal = Calendar::new().with_epoch(-123_456, 1, 2);
    let text = cal.format(VInstant(0));
    assert!(text.starts_with("-123456-") && text.len() == 32);
    assert_eq!(cal.format_small(VInstant(0)).unwrap().as_str(), text);
    let cal = Calendar::new().with_epoch(-1_234_567, 1, 2);
    assert!(cal.format_small(VInstant(0)).is_none());

    // an offset of more than 99 hours takes more room as well
    let cal = Calendar::new().with_epoch(1_234_567, 1, 2).with_tz_offset_secs(100 * 3600);
    assert!(cal.format_small(VInstant(0)).is_none());
    let cal = Calendar::new().with_epoch_local(5, 1, 2).with_tz_offset_secs(i32::MIN);
    assert_eq!(cal.format(VInstant(0)), "0005-01-02T00:00:00.000-596523:14");
    assert!(cal.format_small(VInstant(0)).is_none());
    let cal = Calendar::new().with_epoch_local(5, 1, 2).with_tz_offset_secs(-99 * 3600 - 59 * 60);
    assert_eq!(cal.format_small(VInstant(0)).unwrap().as_str(), "0005-01-02T00:00:00.000-99:59");
}
