use snipebot::display::format_due;
use snipebot::display::DT_FORMAT;

#[test]
fn due_instant_is_shown_on_the_guild_clock() {
    // 2024-01-02T15:30:00Z is 2024-01-03T00:30:00+09:00.
    assert_eq!(format_due(1_704_209_400, 9), Some("01/03 00:30:00 (+09:00)".to_string()));
    assert_eq!(format_due(1_704_209_400, 0), Some("01/02 15:30:00 (+00:00)".to_string()));
    assert_eq!(format_due(1_704_209_400, -12), Some("01/02 03:30:00 (-12:00)".to_string()));
}

#[test]
fn instants_before_the_epoch_are_shown_too() {
    assert_eq!(format_due(0, 0), Some("01/01 00:00:00 (+00:00)".to_string()));
    assert_eq!(format_due(-1, -5), Some("12/31 18:59:59 (-05:00)".to_string()));
}

#[test]
fn leap_day_is_shown() {
    // 2024-02-29T23:50:10Z
    assert_eq!(format_due(1_709_250_610, 0), Some("02/29 23:50:10 (+00:00)".to_string()));
    assert_eq!(format_due(1_709_250_610, 1), Some("03/01 00:50:10 (+01:00)".to_string()));
}

#[test]
fn an_offset_that_no_guild_can_have_has_no_text() {
    assert_eq!(format_due(0, 13), None);
    assert_eq!(format_due(0, -13), None);
    assert_eq!(format_due(0, i32::MAX), None);
    assert_eq!(format_due(0, i32::MIN), None);
}

#[test]
fn an_instant_beyond_the_calendar_has_no_text() {
    assert_eq!(format_due(i64::MAX, 0), None);
    assert_eq!(format_due(i64::MIN, 0), None);
}

#[test]
fn the_pattern_names_month_day_time_and_offset() {
    assert_eq!(DT_FORMAT, "%m/%d %H:%M:%S (%:z)");
}

#[test]
fn the_ends_of_the_calendar_are_shown_or_have_no_text() {
    // The last instant that the calendar reaches lies between these two.
    let mut shown: i64 = 0;
    let mut not_shown: i64 = i64::MAX;
    while not_shown - shown > 1 {
        let middle = shown + (not_shown - shown) / 2;
        if chrono::DateTime::from_timestamp(middle, 0).is_some() {
            shown = middle;
        } else {
            not_shown = middle;
        }
    }
    for offset in [-12, 0, 12] {
        for secs in [shown - 86_400, shown - 1, shown] {
            let text = format_due(secs, offset).unwrap();
            assert_eq!(text.chars().count(), "01/01 00:00:00 (+00:00)".chars().count());
        }
        assert_eq!(format_due(not_shown, offset), None);
    }
    let mut shown: i64 = 0;
    let mut not_shown: i64 = i64::MIN;
    while shown - not_shown > 1 {
        let middle = not_shown + (shown - not_shown) / 2;
        if chrono::DateTime::from_timestamp(middle, 0).is_some() {
            shown = middle;
        } else {
            not_shown = middle;
        }
    }
    for offset in [-12, 0, 12] {
        for secs in [shown, shown + 1, shown + 86_400] {
            let text = format_due(secs, offset).unwrap();
            assert_eq!(text.chars().count(), "01/01 00:00:00 (+00:00)".chars().count());
        }
        assert_eq!(format_due(not_shown, offset), None);
    }
}
