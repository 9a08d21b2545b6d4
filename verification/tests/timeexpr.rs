use snipebot::timeexpr::fields_from_captures;
use snipebot::timeexpr::parse_decimal;
use snipebot::timeexpr::parse_time;
use snipebot::timeexpr::TimeFields;
use snipebot::timeexpr::Unrecognised;

fn fields(hour: Option<u32>, minute: Option<u32>) -> Result<TimeFields, Unrecognised> {
    Ok(TimeFields { hour, minute })
}

fn captured(hour: Option<&str>, minute: Option<&str>) -> Option<(Option<String>, Option<String>)> {
    Some((hour.map(|s| s.to_string()), minute.map(|s| s.to_string())))
}

#[test]
fn hours_and_minutes_with_units() {
    assert_eq!(parse_time("1h30m"), fields(Some(1), Some(30)));
    assert_eq!(parse_time("2hours15mins"), fields(Some(2), Some(15)));
    assert_eq!(parse_time("1hour5min"), fields(Some(1), Some(5)));
    assert_eq!(parse_time("3H4M"), fields(Some(3), Some(4)));
    assert_eq!(parse_time("12時間34分"), fields(Some(12), Some(34)));
    assert_eq!(parse_time("7時5分"), fields(Some(7), Some(5)));
}

#[test]
fn clock_notation() {
    assert_eq!(parse_time("23:15"), fields(Some(23), Some(15)));
    assert_eq!(parse_time("0:30"), fields(Some(0), Some(30)));
    assert_eq!(parse_time("9：05"), fields(Some(9), Some(5)));
    assert_eq!(parse_time("25:61"), fields(Some(25), Some(61)));
}

#[test]
fn hour_alone_and_minute_alone() {
    assert_eq!(parse_time("5h"), fields(Some(5), None));
    assert_eq!(parse_time("5時"), fields(Some(5), None));
    assert_eq!(parse_time("7:"), fields(Some(7), None));
    assert_eq!(parse_time("45m"), fields(None, Some(45)));
    assert_eq!(parse_time("45分"), fields(None, Some(45)));
    assert_eq!(parse_time("45"), fields(None, Some(45)));
    assert_eq!(parse_time("0"), fields(None, Some(0)));
}

#[test]
fn at_most_two_digits_are_read() {
    // Two digits are the minute; what follows is not looked at.
    assert_eq!(parse_time("123"), fields(None, Some(12)));
    assert_eq!(parse_time("1234h"), fields(None, Some(12)));
    assert_eq!(parse_time("10 minutes"), fields(None, Some(10)));
}

#[test]
fn text_that_does_not_begin_with_a_number_is_not_recognised() {
    assert_eq!(parse_time(""), Err(Unrecognised));
    assert_eq!(parse_time("soon"), Err(Unrecognised));
    assert_eq!(parse_time("at 10:30"), Err(Unrecognised));
    assert_eq!(parse_time(" 5m"), Err(Unrecognised));
    assert_eq!(parse_time("-5m"), Err(Unrecognised));
    assert_eq!(parse_time("h30m"), Err(Unrecognised));
}

#[test]
fn digits_of_other_scripts_are_matched_but_are_no_numbers() {
    assert_eq!(parse_time("٣h"), Err(Unrecognised));
    assert_eq!(parse_time("１２:３０"), Err(Unrecognised));
}

#[test]
fn decimal_numerals() {
    assert_eq!(parse_decimal("0"), Some(0));
    assert_eq!(parse_decimal("7"), Some(7));
    assert_eq!(parse_decimal("007"), Some(7));
    assert_eq!(parse_decimal("59"), Some(59));
    assert_eq!(parse_decimal("4294967295"), Some(u32::MAX));
    assert_eq!(parse_decimal("0000000000004294967295"), Some(u32::MAX));
}

#[test]
fn what_is_no_decimal_numeral() {
    assert_eq!(parse_decimal(""), None);
    assert_eq!(parse_decimal("4294967296"), None);
    assert_eq!(parse_decimal("99999999999999999999"), None);
    assert_eq!(parse_decimal("+1"), None);
    assert_eq!(parse_decimal("-1"), None);
    assert_eq!(parse_decimal("1a"), None);
    assert_eq!(parse_decimal("a1"), None);
    assert_eq!(parse_decimal(" 1"), None);
    assert_eq!(parse_decimal("1 "), None);
    assert_eq!(parse_decimal("/"), None);
    assert_eq!(parse_decimal(":"), None);
    assert_eq!(parse_decimal("１"), None);
    assert_eq!(parse_decimal("٣"), None);
    assert_eq!(parse_decimal("4294967296x"), None);
}

#[test]
fn captured_groups_become_fields() {
    assert_eq!(fields_from_captures(&captured(Some("1"), Some("30"))), fields(Some(1), Some(30)));
    assert_eq!(fields_from_captures(&captured(Some("23"), None)), fields(Some(23), None));
    assert_eq!(fields_from_captures(&captured(None, Some("05"))), fields(None, Some(5)));
    assert_eq!(fields_from_captures(&captured(Some("300"), None)), fields(Some(300), None));
}

#[test]
fn captures_without_a_number_are_not_recognised() {
    assert_eq!(fields_from_captures(&None), Err(Unrecognised));
    assert_eq!(fields_from_captures(&captured(None, None)), Err(Unrecognised));
    assert_eq!(fields_from_captures(&captured(Some(""), None)), Err(Unrecognised));
    assert_eq!(fields_from_captures(&captured(Some("x"), Some("5"))), Err(Unrecognised));
    assert_eq!(fields_from_captures(&captured(Some("5"), Some("x"))), Err(Unrecognised));
    assert_eq!(fields_from_captures(&captured(None, Some("4294967296"))), Err(Unrecognised));
}
