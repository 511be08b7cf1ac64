use siphon::calendar::{civil_from_days, days_from_civil};
use siphon::logging::{parse_iso_ms, timestamp};

#[test]
fn known_days() {
    assert_eq!(civil_from_days(0), (1970, 1, 1));
    assert_eq!(civil_from_days(-1), (1969, 12, 31));
    assert_eq!(civil_from_days(11_016), (2000, 2, 29));
    assert_eq!(civil_from_days(-719_468), (0, 3, 1));
    assert_eq!(days_from_civil(2026, 9, 10), 20_706);
    assert_eq!(days_from_civil(0, 3, 1), -719_468);
    assert_eq!(days_from_civil(-1, 12, 31), days_from_civil(0, 1, 1) - 1);
}

#[test]
fn days_and_dates_are_inverse() {
    let mut days: i64 = -1_000_000;
    while days < 1_000_000 {
        let (year, month, day) = civil_from_days(days);
        assert_eq!(days_from_civil(year, month, day), days);
        days += 997;
    }
}

#[test]
fn timestamps_are_rfc_3339() {
    assert_eq!(timestamp(0, 0), "1970-01-01T00:00:00.000Z");
    assert_eq!(timestamp(1_789_065_306, 7), "2026-09-10T18:35:06.007Z");
    assert_eq!(timestamp(253_402_300_799, 999), "9999-12-31T23:59:59.999Z");
}

#[test]
fn timestamps_are_read_back() {
    for (secs, millis) in [(0_u64, 0_u32), (951_782_400, 123), (1_789_065_306, 999)] {
        let text = timestamp(secs, millis);
        assert_eq!(parse_iso_ms(&text), Some((secs * 1000) as i64 + i64::from(millis)));
    }
}

#[test]
fn timestamps_order_as_texts_the_way_they_do_in_time() {
    let moments = [
        (0, 0),
        (0, 999),
        (1, 0),
        (59, 999),
        (60, 0),
        (86_399, 999),
        (86_400, 0),
        (951_782_399, 999),
        (951_782_400, 0),
        (1_789_065_306, 7),
        (253_402_300_799, 999),
    ];
    for pair in moments.windows(2) {
        let before = timestamp(pair[0].0, pair[0].1);
        let after = timestamp(pair[1].0, pair[1].1);
        assert!(before < after, "{before} {after}");
        assert!(parse_iso_ms(&before) < parse_iso_ms(&after));
    }
}

#[test]
fn iso_timestamps() {
    assert_eq!(parse_iso_ms("2026-09-10T18:35:06Z"), Some(1_789_065_306_000));
    assert_eq!(parse_iso_ms("2026-09-10t18:35:06Z"), Some(1_789_065_306_000));
    assert_eq!(parse_iso_ms("2026-09-10T18:35:06"), Some(1_789_065_306_000));
    assert_eq!(parse_iso_ms("2026-09-10T18:35:06.5Z"), Some(1_789_065_306_500));
    assert_eq!(parse_iso_ms("2026-09-10T18:35:06.25Z"), Some(1_789_065_306_250));
    assert_eq!(parse_iso_ms("2026-09-10T18:35:06.123456789Z"), Some(1_789_065_306_123));
    assert_eq!(parse_iso_ms("1970-01-01T00:00:00Z"), Some(0));
    assert_eq!(parse_iso_ms("1969-12-31T23:59:59Z"), Some(-1000));
    assert_eq!(parse_iso_ms("+970-01-01T00:00:00Z"), parse_iso_ms("0970-01-01T00:00:00Z"));
}

#[test]
fn texts_that_are_no_timestamp() {
    assert_eq!(parse_iso_ms(""), None);
    assert_eq!(parse_iso_ms("2026-09-10"), None);
    assert_eq!(parse_iso_ms("2026/09/10T18:35:06Z"), None);
    assert_eq!(parse_iso_ms("2026-09-10 18:35:06Z"), None);
    assert_eq!(parse_iso_ms("2026-09-10T18.35.06Z"), None);
    assert_eq!(parse_iso_ms("20x6-09-10T18:35:06Z"), None);
    assert_eq!(parse_iso_ms("2026-09-10T18:35:06.Z"), None);
    assert_eq!(parse_iso_ms("2026-09-10T18:35:é6Z"), None);
}
