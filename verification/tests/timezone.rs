use chrono::FixedOffset;
use snipebot::timezone::is_valid_utc_offset;
use snipebot::timezone::TimeZone;
use snipebot::timezone::MAX_UTC_OFFSET;
use snipebot::timezone::MIN_UTC_OFFSET;

#[test]
fn offsets_from_minus_twelve_to_twelve_are_valid() {
    assert_eq!((MIN_UTC_OFFSET, MAX_UTC_OFFSET), (-12, 12));
    for hours in -12..=12 {
        assert!(is_valid_utc_offset(hours));
        let zone = TimeZone::from_hours(hours).unwrap();
        assert_eq!(zone.hours() as i64, hours);
        assert_eq!(zone.seconds() as i64, 3600 * hours);
    }
    for hours in [-13, 13, 24, -24, i64::MIN, i64::MAX, (1 << 32) + 1] {
        assert!(!is_valid_utc_offset(hours));
        assert_eq!(TimeZone::from_hours(hours), None);
    }
}

#[test]
fn utc_is_the_zero_offset() {
    assert_eq!(Some(TimeZone::utc()), TimeZone::from_hours(0));
    assert_eq!(TimeZone::utc().hours(), 0);
    assert_eq!(TimeZone::utc().label(), "+00:00");
}

#[test]
fn labels_show_sign_and_two_digits() {
    assert_eq!(TimeZone::from_hours(9).unwrap().label(), "+09:00");
    assert_eq!(TimeZone::from_hours(-5).unwrap().label(), "-05:00");
    assert_eq!(TimeZone::from_hours(12).unwrap().label(), "+12:00");
    assert_eq!(TimeZone::from_hours(-12).unwrap().label(), "-12:00");
    assert_eq!(TimeZone::from_hours(10).unwrap().label(), "+10:00");
    assert_eq!(TimeZone::from_hours(-1).unwrap().label(), "-01:00");
}

#[test]
fn labels_are_what_the_calendar_library_shows() {
    for hours in -12..=12 {
        let zone = TimeZone::from_hours(hours).unwrap();
        let shown = format!("{}", FixedOffset::east_opt(zone.seconds()).unwrap());
        assert_eq!(zone.label(), shown);
    }
}
