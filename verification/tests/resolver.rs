use chrono::DateTime;
use chrono::Duration;
use chrono::FixedOffset;
use chrono::TimeZone;
use chrono::Timelike;
use snipebot::resolver::advance_notice_instant;
use snipebot::resolver::is_clock_in_range;
use snipebot::resolver::resolve_absolute;
use snipebot::resolver::resolve_relative;
use snipebot::resolver::InvalidTimeComponents;
use snipebot::resolver::ADVANCE_NOTICE_SECS;
use snipebot::resolver::MAX_CLOCK;
use snipebot::resolver::SECS_PER_DAY;

// 2024-03-10T12:34:56Z
const NOON: i64 = 1_710_074_096;

#[test]
fn absolute_target_already_passed_rolls_to_next_day() {
    // 2024-01-01T23:00:00Z is 2024-01-02T08:00:00+09:00.
    let now = 1_704_150_000;
    let due = resolve_absolute(Some(0), Some(30), 9, now);
    // 2024-01-03T00:30:00+09:00 is 2024-01-02T15:30:00Z.
    assert_eq!(due, Ok(1_704_209_400));
}

#[test]
fn relative_adds_hours_and_minutes() {
    // 2024-06-01T10:00:00Z
    let now = 1_717_236_000;
    // 2024-06-01T11:30:00Z
    assert_eq!(resolve_relative(1, 30, now), 1_717_241_400);
}

#[test]
fn relative_with_nothing_to_add_is_now() {
    assert_eq!(resolve_relative(0, 0, NOON), NOON);
    assert_eq!(resolve_relative(0, 0, -60), -60);
}

#[test]
fn relative_takes_more_than_a_day_and_more_than_an_hour_of_minutes() {
    assert_eq!(resolve_relative(30, 0, NOON), NOON + 30 * 3600);
    assert_eq!(resolve_relative(0, 90, NOON), NOON + 90 * 60);
    assert_eq!(resolve_relative(99, 99, 0), 99 * 3600 + 99 * 60);
}

#[test]
fn absolute_target_later_today_stays_today() {
    // UTC clock shows 12:34:56; 13:00 is 25 minutes and 4 seconds away.
    assert_eq!(resolve_absolute(Some(13), Some(0), 0, NOON), Ok(NOON + 25 * 60 + 4));
}

#[test]
fn absolute_target_equal_to_now_is_not_in_the_future() {
    // 2024-03-10T12:34:00Z exactly: 12:34 is not strictly after now.
    let now = NOON - 56;
    assert_eq!(resolve_absolute(Some(12), Some(34), 0, now), Ok(now + SECS_PER_DAY));
}

#[test]
fn absolute_target_one_second_ahead_stays_today() {
    let now = NOON - 57;
    assert_eq!(resolve_absolute(Some(12), Some(34), 0, now), Ok(now + 1));
}

#[test]
fn absolute_minute_only_that_has_passed_goes_to_the_next_hour() {
    // Clock shows 12:34:56, minute 10 has passed in this hour: 13:10:00.
    assert_eq!(resolve_absolute(None, Some(10), 0, NOON), Ok(NOON - 34 * 60 - 56 + 3600 + 600));
}

#[test]
fn absolute_minute_only_still_ahead_stays_in_this_hour() {
    // Clock shows 12:34:56, minute 50 is ahead: 12:50:00.
    assert_eq!(resolve_absolute(None, Some(50), 0, NOON), Ok(NOON - 56 + 16 * 60));
}

#[test]
fn absolute_minute_only_equal_to_the_current_minute_goes_to_the_next_day() {
    // Clock shows 12:34:56: 12:34:00 has passed, and the minute is not
    // greater than the target, so the day rolls.
    assert_eq!(resolve_absolute(None, Some(34), 0, NOON), Ok(NOON - 56 + SECS_PER_DAY));
}

#[test]
fn absolute_minute_only_rolls_over_midnight() {
    // 2024-02-29T23:50:10Z, minute 5 has passed: 2024-03-01T00:05:00Z.
    let now = 1_709_250_610;
    assert_eq!(resolve_absolute(None, Some(5), 0, now), Ok(now - 10 + 15 * 60));
}

#[test]
fn absolute_hour_only_takes_the_current_minute() {
    // Clock shows 12:34:56; 15:34:00 today.
    assert_eq!(resolve_absolute(Some(15), None, 0, NOON), Ok(NOON - 56 + 3 * 3600));
    // 12:34:00 has passed: tomorrow.
    assert_eq!(resolve_absolute(Some(12), None, 0, NOON), Ok(NOON - 56 + SECS_PER_DAY));
}

#[test]
fn absolute_with_no_field_is_this_minute_tomorrow() {
    assert_eq!(resolve_absolute(None, None, 0, NOON), Ok(NOON - 56 + SECS_PER_DAY));
}

#[test]
fn absolute_uses_the_local_day_west_of_utc() {
    // 2024-03-10T12:34:56Z is 00:34:56 at -12. 23:00 local is that day.
    assert_eq!(resolve_absolute(Some(23), Some(0), -12, NOON), Ok(NOON - 34 * 60 - 56 + 23 * 3600));
    // 00:10 local has passed: next local day.
    assert_eq!(
        resolve_absolute(Some(0), Some(10), -12, NOON),
        Ok(NOON - 34 * 60 - 56 + 600 + SECS_PER_DAY)
    );
}

#[test]
fn absolute_before_the_epoch_counts_days_downwards() {
    // 1969-12-31T23:59:00Z; 23:59:30 does not exist as a target, 23:59 has
    // just been reached, 00:00 is one minute away.
    assert_eq!(resolve_absolute(Some(0), Some(0), 0, -60), Ok(0));
    assert_eq!(resolve_absolute(Some(23), Some(59), 0, -60), Ok(-60 + SECS_PER_DAY));
    assert_eq!(resolve_absolute(Some(23), Some(59), 0, -61), Ok(-60));
}

#[test]
fn absolute_refuses_an_hour_of_24() {
    assert_eq!(resolve_absolute(Some(24), Some(0), 0, NOON), Err(InvalidTimeComponents));
    assert_eq!(resolve_absolute(Some(24), None, 0, NOON), Err(InvalidTimeComponents));
    assert_eq!(resolve_absolute(Some(u32::MAX), Some(0), 9, NOON), Err(InvalidTimeComponents));
}

#[test]
fn absolute_refuses_a_minute_of_60() {
    assert_eq!(resolve_absolute(Some(0), Some(60), 0, NOON), Err(InvalidTimeComponents));
    assert_eq!(resolve_absolute(None, Some(60), 0, NOON), Err(InvalidTimeComponents));
    assert_eq!(resolve_absolute(Some(99), Some(99), -3, NOON), Err(InvalidTimeComponents));
}

#[test]
fn absolute_accepts_the_last_minute_of_the_day() {
    assert_eq!(
        resolve_absolute(Some(23), Some(59), 0, NOON),
        Ok(NOON - 12 * 3600 - 34 * 60 - 56 + 23 * 3600 + 59 * 60)
    );
}

#[test]
fn absolute_is_strictly_after_now_and_at_most_a_day_away() {
    let mut now = NOON - 3 * SECS_PER_DAY;
    while now < NOON + 3 * SECS_PER_DAY {
        for offset in -12..=12 {
            for hour in [None, Some(0), Some(7), Some(12), Some(23)] {
                for minute in [None, Some(0), Some(34), Some(59)] {
                    let due = resolve_absolute(hour, minute, offset, now).unwrap();
                    assert!(due > now);
                    assert!(due - SECS_PER_DAY <= now);
                }
            }
        }
        now += 3_607;
    }
}

#[test]
fn absolute_agrees_with_the_calendar() {
    let mut now = NOON - 2 * SECS_PER_DAY;
    while now < NOON + 2 * SECS_PER_DAY {
        for offset in [-12, -5, 0, 9, 12] {
            for (hour, minute) in [(0, 0), (0, 30), (8, 15), (12, 34), (23, 59)] {
                let zone = FixedOffset::east_opt(3600 * offset).unwrap();
                let local_now = DateTime::from_timestamp(now, 0).unwrap().with_timezone(&zone);
                let today = zone
                    .from_local_datetime(&local_now.date_naive().and_hms_opt(hour, minute, 0).unwrap())
                    .unwrap();
                let expected = if today > local_now { today } else { today + Duration::days(1) };
                assert_eq!(
                    resolve_absolute(Some(hour), Some(minute), offset, now),
                    Ok(expected.timestamp())
                );
            }
        }
        now += 1_801;
    }
}

#[test]
fn absolute_shows_the_target_on_the_local_clock() {
    let zone = FixedOffset::east_opt(3600 * 9).unwrap();
    let due = resolve_absolute(Some(7), Some(5), 9, NOON).unwrap();
    let local = DateTime::from_timestamp(due, 0).unwrap().with_timezone(&zone);
    assert_eq!((local.hour(), local.minute(), local.second()), (7, 5, 0));
    let due = resolve_absolute(None, Some(5), 9, NOON).unwrap();
    let local = DateTime::from_timestamp(due, 0).unwrap().with_timezone(&zone);
    assert_eq!((local.minute(), local.second()), (5, 0));
}

#[test]
fn advance_notice_is_three_minutes_before_due() {
    assert_eq!(ADVANCE_NOTICE_SECS, 180);
    assert_eq!(advance_notice_instant(1_704_209_400), 1_704_209_220);
    assert_eq!(advance_notice_instant(0), -180);
    assert_eq!(advance_notice_instant(i64::MIN + 180), i64::MIN);
}

#[test]
fn advance_notice_of_an_absolute_request_is_exactly_three_minutes_earlier() {
    for offset in [-12, 0, 9] {
        for (hour, minute) in [(None, Some(3)), (Some(0), Some(0)), (Some(23), None)] {
            let due = resolve_absolute(hour, minute, offset, NOON).unwrap();
            assert_eq!(advance_notice_instant(due), due - 3 * 60);
        }
    }
}

#[test]
fn clock_range_reaches_far_beyond_any_calendar() {
    assert!(is_clock_in_range(0));
    assert!(is_clock_in_range(NOON));
    assert!(is_clock_in_range(MAX_CLOCK));
    assert!(is_clock_in_range(-MAX_CLOCK));
    assert!(!is_clock_in_range(MAX_CLOCK + 1));
    assert!(!is_clock_in_range(-MAX_CLOCK - 1));
    assert!(!is_clock_in_range(i64::MAX));
    assert!(!is_clock_in_range(i64::MIN));
}

#[test]
fn absolute_works_at_the_ends_of_the_clock_range() {
    let due = resolve_absolute(Some(0), Some(0), 12, MAX_CLOCK).unwrap();
    assert!(due > MAX_CLOCK && due <= MAX_CLOCK + SECS_PER_DAY);
    let due = resolve_absolute(Some(0), Some(0), -12, -MAX_CLOCK).unwrap();
    assert!(due > -MAX_CLOCK && due <= -MAX_CLOCK + SECS_PER_DAY);
    assert_eq!(
        resolve_relative(u32::MAX, u32::MAX, MAX_CLOCK),
        MAX_CLOCK + 3660 * (u32::MAX as i64)
    );
}
