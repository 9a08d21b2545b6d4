//! Reading the time expression of a scheduling request.
//!
//! An expression such as `1h30m`, `23:15` or `45分` is matched against
//! [`TIME_PATTERN`]; the digits that the match captures become the hour and
//! minute fields of the request.

use vstd::prelude::*;
use vstd::string::is_ascii_spec_bytes;

verus! {

/// The grammar of time expressions: an optional hour with its unit or
/// separator, then an optional minute with an optional unit.
pub const TIME_PATTERN: &'static str =
    "(?:(?P<hour>\\d{1,2})(?:時間|時|:|：|hours|hour|h|Hours|Hour|H|\\s^@))?(?:(?P<minute>\\d{1,2})(?:分|mins|min|m|Mins|Min|M|))?";

/// The name of the group that captures the hour.
pub const HOUR_GROUP: &'static str = "hour";

/// The name of the group that captures the minute.
pub const MINUTE_GROUP: &'static str = "minute";

/// The hour and minute that a time expression gives; either may be missing,
/// but not both.
#[derive(Clone, Copy, Debug, PartialEq, Eq, Structural)]
pub struct TimeFields {
    pub hour: Option<u32>,
    pub minute: Option<u32>,
}

/// The text is not a time expression.
#[derive(Clone, Copy, Debug, PartialEq, Eq, Structural)]
pub struct Unrecognised;

/// What the regex crate captures when it searches `text` for the leftmost
/// match of `pattern`: `None` where the pattern does not compile or nothing
/// matches, else the texts of the groups named `first` and `second`, each
/// `None` where the pattern has no such group or the group took no part in the
/// match.
pub uninterp spec fn regex_captures(pattern: Seq<char>, text: Seq<char>, first: Seq<char>, second: Seq<char>) -> Option<(Option<Seq<char>>, Option<Seq<char>>)>;

/// Searches `text` with the regex crate: `Regex::new` compiles `pattern`,
/// `Regex::captures` finds the leftmost match, and `Captures::name` with
/// `Match::as_str` gives the text of each of the two named groups. The
/// contract names what is captured and claims nothing else of it.
#[verifier::external_body]
fn capture_pair(pattern: &str, text: &str, first: &str, second: &str) -> (groups: Option<
    (Option<String>, Option<String>),
>)
    ensures
        groups.deep_view() == regex_captures(pattern@, text@, first@, second@),
{
    let found = regex::Regex::new(pattern).ok()?.captures(text)?;
    let first = found.name(first).map(|m| m.as_str().to_owned());
    let second = found.name(second).map(|m| m.as_str().to_owned());
    Some((first, second))
}

/// Whether `c` is one of the digits `0` to `9`.
pub open spec fn is_digit(c: char) -> bool {
    '0' <= c <= '9'
}

/// Whether `s` is a decimal numeral: one or more digits and nothing else.
pub open spec fn is_decimal(s: Seq<char>) -> bool {
    s.len() > 0 && forall|i: int| 0 <= i < s.len() ==> is_digit(#[trigger] s[i])
}

/// The number that the digits of `s` write.
pub open spec fn decimal_value(s: Seq<char>) -> int
    decreases s.len(),
{
    if s.len() == 0 {
        0
    } else {
        10 * decimal_value(s.drop_last()) + (s.last() as int - '0' as int)
    }
}

/// The number that a field of a time expression gives, where it is a decimal
/// numeral that fits in 32 bits.
pub open spec fn field_value(s: Seq<char>) -> Option<u32> {
    if is_decimal(s) && decimal_value(s) <= u32::MAX {
        Some(decimal_value(s) as u32)
    } else {
        None
    }
}

/// The fields that captured groups give. A search without a match gives none;
/// nor does a match that captured neither group, or a group that is not a
/// number.
pub open spec fn fields_of(groups: Option<(Option<Seq<char>>, Option<Seq<char>>)>) -> Result<
    TimeFields,
    Unrecognised,
> {
    match groups {
        None => Err(Unrecognised),
        Some((None, None)) => Err(Unrecognised),
        Some((Some(h), None)) => match field_value(h) {
            Some(hour) => Ok(TimeFields { hour: Some(hour), minute: None }),
            None => Err(Unrecognised),
        },
        Some((None, Some(m))) => match field_value(m) {
            Some(minute) => Ok(TimeFields { hour: None, minute: Some(minute) }),
            None => Err(Unrecognised),
        },
        Some((Some(h), Some(m))) => match (field_value(h), field_value(m)) {
            (Some(hour), Some(minute)) => Ok(TimeFields { hour: Some(hour), minute: Some(minute) }),
            _ => Err(Unrecognised),
        },
    }
}

/// The digits read so far never write more than all the digits do.
proof fn lemma_decimal_prefix(s: Seq<char>, n: int)
    requires
        is_decimal(s),
        0 <= n <= s.len(),
    ensures
        0 <= decimal_value(s.take(n)) <= decimal_value(s),
    decreases s.len() - n,
{
    if n == s.len() {
        assert(s.take(n) =~= s);
        lemma_decimal_nonnegative(s);
    } else {
        lemma_decimal_prefix(s, n + 1);
        assert(s.take(n + 1).drop_last() =~= s.take(n));
        assert(is_digit(s[n]));
        lemma_decimal_nonnegative(s.take(n));
    }
}

/// Digits write a number that is not negative.
proof fn lemma_decimal_nonnegative(s: Seq<char>)
    requires
        forall|i: int| 0 <= i < s.len() ==> is_digit(#[trigger] s[i]),
    ensures
        0 <= decimal_value(s),
    decreases s.len(),
{
    if s.len() > 0 {
        assert(is_digit(s[s.len() - 1]));
        lemma_decimal_nonnegative(s.drop_last());
    }
}

/// Reads a decimal numeral.
pub fn parse_decimal(text: &str) -> (value: Option<u32>)
    ensures
        value == field_value(text@),
{
    if !text.is_ascii() {
        proof {
            if is_decimal(text@) {
                assert forall|i: int| 0 <= i < text@.len() implies '\0' <= #[trigger] text@[i]
                    <= '\u{7f}' by {
                    assert(is_digit(text@[i]));
                }
            }
        }
        return None;
    }
    let bytes = text.as_bytes();
    proof {
        is_ascii_spec_bytes(text);
    }
    if bytes.len() == 0 {
        return None;
    }
    let mut value: u32 = 0;
    let mut i: usize = 0;
    while i < bytes.len()
        invariant
            0 <= i <= bytes.len(),
            bytes@.len() == text@.len(),
            forall|k: int| 0 <= k < bytes@.len() ==> bytes@[k] == (#[trigger] text@[k]) as u8,
            forall|k: int| 0 <= k < text@.len() ==> '\0' <= #[trigger] text@[k] <= '\u{7f}',
            forall|k: int| 0 <= k < i ==> is_digit(#[trigger] text@[k]),
            value == decimal_value(text@.take(i as int)),
        decreases bytes.len() - i,
    {
        let byte: u8 = bytes[i];
        assert(byte == text@[i as int] as u8);
        if byte < 48 || byte > 57 {
            assert(!is_digit(text@[i as int]));
            return None;
        }
        let digit: u32 = (byte - 48) as u32;
        proof {
            assert(text@.take(i + 1).drop_last() =~= text@.take(i as int));
            assert(decimal_value(text@.take(i + 1)) == 10 * value + digit);
        }
        if value > (u32::MAX - digit) / 10 {
            proof {
                if is_decimal(text@) {
                    lemma_decimal_prefix(text@, i + 1);
                }
            }
            return None;
        }
        value = value * 10 + digit;
        i = i + 1;
    }
    proof {
        assert(text@.take(i as int) =~= text@);
    }
    Some(value)
}

/// Reads one captured group, where there is one.
fn parse_group(group: &Option<String>) -> (field: Option<Option<u32>>)
    ensures
        field == match group.deep_view() {
            None => Some(None::<u32>),
            Some(s) => match field_value(s) {
                Some(v) => Some(Some(v)),
                None => None,
            },
        },
{
    match group {
        None => Some(None),
        Some(s) => match parse_decimal(s.as_str()) {
            Some(v) => Some(Some(v)),
            None => None,
        },
    }
}

/// Turns what a search captured into the fields of a request.
pub fn fields_from_captures(groups: &Option<(Option<String>, Option<String>)>) -> (res: Result<
    TimeFields,
    Unrecognised,
>)
    ensures
        res == fields_of(groups.deep_view()),
{
    match groups {
        None => Err(Unrecognised),
        Some((hour_text, minute_text)) => {
            if hour_text.is_none() && minute_text.is_none() {
                return Err(Unrecognised);
            }
            match (parse_group(hour_text), parse_group(minute_text)) {
                (Some(hour), Some(minute)) => Ok(TimeFields { hour, minute }),
                _ => Err(Unrecognised),
            }
        },
    }
}

/// The fields that the time expression `text` gives.
pub open spec fn time_fields(text: Seq<char>) -> Result<TimeFields, Unrecognised> {
    fields_of(regex_captures(TIME_PATTERN@, text, HOUR_GROUP@, MINUTE_GROUP@))
}

/// Reads a time expression.
pub fn parse_time(text: &str) -> (res: Result<TimeFields, Unrecognised>)
    ensures
        res == time_fields(text@),
{
    let groups = capture_pair(TIME_PATTERN, text, HOUR_GROUP, MINUTE_GROUP);
    fields_from_captures(&groups)
}

} // verus!
