//! Turning a time expression into the instant at which a job falls due.
//!
//! Instants are seconds since the Unix epoch, UTC. A guild-local time is the
//! instant shifted by the guild's offset; its clock reading is taken from the
//! seconds since local midnight.

use vstd::prelude::*;
use vstd::arithmetic::div_mod::lemma_fundamental_div_mod;
use vstd::arithmetic::div_mod::lemma_fundamental_div_mod_converse;
use crate::timezone::SECS_PER_HOUR;
use crate::timezone::valid_utc_offset;

verus! {

pub const SECS_PER_MINUTE: i64 = 60;

pub const SECS_PER_DAY: i64 = 86_400;

/// How long before a disconnect its subject is warned.
pub const ADVANCE_NOTICE_SECS: i64 = 180;

/// The largest distance from the epoch, in seconds, at which "now" can be
/// resolved: no request reaches the ends of the `i64` range from there.
pub const MAX_CLOCK: i64 = 0x4000_0000_0000_0000;

/// A given hour or minute was outside `0..=23` or `0..=59`.
#[derive(Clone, Copy, Debug, PartialEq, Eq, Structural)]
pub struct InvalidTimeComponents;

/// The guild-local time of `instant`, as seconds since the local epoch.
pub open spec fn local_time(instant: int, utc_offset: int) -> int {
    instant + SECS_PER_HOUR * utc_offset
}

/// Seconds elapsed since the last local midnight.
pub open spec fn second_of_day(local: int) -> int {
    local % (SECS_PER_DAY as int)
}

/// The hour that the local clock shows.
pub open spec fn hour_of_day(local: int) -> int {
    second_of_day(local) / (SECS_PER_HOUR as int)
}

/// The minute that the local clock shows.
pub open spec fn minute_of_hour(local: int) -> int {
    (second_of_day(local) % (SECS_PER_HOUR as int)) / (SECS_PER_MINUTE as int)
}

/// Whether "now" is an instant that requests can be resolved at.
pub open spec fn clock_in_range(now: int) -> bool {
    -MAX_CLOCK <= now <= MAX_CLOCK
}

/// Decides whether "now" is an instant that requests can be resolved at.
pub fn is_clock_in_range(now: i64) -> (ok: bool)
    ensures
        ok == clock_in_range(now as int),
{
    -MAX_CLOCK <= now && now <= MAX_CLOCK
}

/// Whether the fields that the caller gave are a time of day.
pub open spec fn valid_components(hour: Option<u32>, minute: Option<u32>) -> bool {
    &&& hour matches Some(h) ==> h <= 23
    &&& minute matches Some(m) ==> m <= 59
}

/// The hour to aim for: the given one, or the one the local clock shows.
pub open spec fn target_hour(hour: Option<u32>, local_now: int) -> int {
    match hour {
        Some(h) => h as int,
        None => hour_of_day(local_now),
    }
}

/// The minute to aim for: the given one, or the one the local clock shows.
pub open spec fn target_minute(minute: Option<u32>, local_now: int) -> int {
    match minute {
        Some(m) => m as int,
        None => minute_of_hour(local_now),
    }
}

/// Whether the target rolls forward by an hour: no hour was given and the
/// target minute has already passed within the current local hour.
pub open spec fn rolls_hour(hour: Option<u32>, minute: Option<u32>, local_now: int) -> bool {
    hour is None && minute_of_hour(local_now) > target_minute(minute, local_now)
}

/// The local time aimed for before the day rollover: today's local date at
/// the target hour and minute, one hour later if the target rolls.
pub open spec fn local_candidate(hour: Option<u32>, minute: Option<u32>, local_now: int) -> int {
    let today = local_now - second_of_day(local_now) + SECS_PER_HOUR * target_hour(hour, local_now)
        + SECS_PER_MINUTE * target_minute(minute, local_now);
    if rolls_hour(hour, minute, local_now) {
        today + SECS_PER_HOUR
    } else {
        today
    }
}

/// Whether the candidate is moved to the next day: it is not strictly after
/// the local "now".
pub open spec fn rolls_day(hour: Option<u32>, minute: Option<u32>, local_now: int) -> bool {
    local_candidate(hour, minute, local_now) <= local_now
}

/// The instant at which an absolute request falls due.
pub open spec fn absolute_due(hour: Option<u32>, minute: Option<u32>, utc_offset: int, now: int) -> int {
    let local_now = local_time(now, utc_offset);
    let candidate = local_candidate(hour, minute, local_now);
    let local_due = if rolls_day(hour, minute, local_now) {
        candidate + SECS_PER_DAY
    } else {
        candidate
    };
    local_due - SECS_PER_HOUR * utc_offset
}

/// The instant at which a relative request falls due.
pub open spec fn relative_due(hour_offset: int, minute_offset: int, now: int) -> int {
    now + SECS_PER_HOUR * hour_offset + SECS_PER_MINUTE * minute_offset
}

/// The instant at which the advance notice of a disconnect is sent.
pub open spec fn advance_notice(due: int) -> int {
    due - ADVANCE_NOTICE_SECS
}

/// An absolute request falls due strictly after "now" and at most one day
/// later: a day earlier it would not be in the future any more.
pub proof fn lemma_absolute_due_is_next(
    hour: Option<u32>,
    minute: Option<u32>,
    utc_offset: int,
    now: int,
)
    requires
        valid_components(hour, minute),
    ensures
        now < absolute_due(hour, minute, utc_offset, now) <= now + SECS_PER_DAY,
        rolls_day(hour, minute, local_time(now, utc_offset)) ==> absolute_due(
            hour,
            minute,
            utc_offset,
            now,
        ) - SECS_PER_DAY <= now,
{
}

/// The clock reading of the local time that lies `h` hours and `m` minutes
/// after the midnight that begins local day `day`.
proof fn lemma_clock_reading(day: int, h: int, m: int)
    requires
        0 <= h <= 23,
        0 <= m <= 59,
    ensures
        ({
            let local = SECS_PER_DAY * day + SECS_PER_HOUR * h + SECS_PER_MINUTE * m;
            &&& second_of_day(local) == SECS_PER_HOUR * h + SECS_PER_MINUTE * m
            &&& second_of_day(local) % (SECS_PER_MINUTE as int) == 0
            &&& hour_of_day(local) == h
            &&& minute_of_hour(local) == m
        }),
{
    let into_day = 3600 * h + 60 * m;
    lemma_fundamental_div_mod_converse(86400 * day + into_day, 86400, day, into_day);
    lemma_fundamental_div_mod_converse(into_day, 3600, h, 60 * m);
    lemma_fundamental_div_mod_converse(into_day, 60, 60 * h + m, 0);
    lemma_fundamental_div_mod_converse(60 * m, 60, m, 0);
}

/// At the due instant of an absolute request the local clock shows the
/// target minute, zero seconds, and, where an hour was given, that hour.
pub proof fn lemma_absolute_due_shows_target(
    hour: Option<u32>,
    minute: Option<u32>,
    utc_offset: int,
    now: int,
)
    requires
        valid_components(hour, minute),
    ensures
        ({
            let local_due = local_time(absolute_due(hour, minute, utc_offset, now), utc_offset);
            &&& second_of_day(local_due) % (SECS_PER_MINUTE as int) == 0
            &&& minute_of_hour(local_due) == target_minute(minute, local_time(now, utc_offset))
            &&& hour matches Some(h) ==> hour_of_day(local_due) == h
        }),
{
    let local_now = local_time(now, utc_offset);
    let day = local_now / 86400;
    let h = target_hour(hour, local_now);
    let m = target_minute(minute, local_now);
    lemma_fundamental_div_mod(local_now, 86400);
    assert(local_now - second_of_day(local_now) == 86400 * day);
    let rolled_h = if rolls_hour(hour, minute, local_now) {
        h + 1
    } else {
        h
    };
    let rolled_day = if rolls_day(hour, minute, local_now) {
        day + 1
    } else {
        day
    };
    let local_due = local_time(absolute_due(hour, minute, utc_offset, now), utc_offset);
    assert(local_due == 86400 * rolled_day + 3600 * rolled_h + 60 * m);
    if rolled_h == 24 {
        lemma_clock_reading(rolled_day + 1, 0, m);
    } else {
        lemma_clock_reading(rolled_day, rolled_h, m);
    }
}

/// Between "now" and the due instant of a request that gives hour and
/// minute, the local clock never shows that time of day: the request falls
/// due the first time it does.
pub proof fn lemma_absolute_due_is_first(
    hour: u32,
    minute: u32,
    utc_offset: int,
    now: int,
    earlier: int,
)
    requires
        valid_components(Some(hour), Some(minute)),
        now < earlier < absolute_due(Some(hour), Some(minute), utc_offset, now),
    ensures
        second_of_day(local_time(earlier, utc_offset)) != SECS_PER_HOUR * hour + SECS_PER_MINUTE
            * minute,
{
    let due = absolute_due(Some(hour), Some(minute), utc_offset, now);
    let local_due = local_time(due, utc_offset);
    let local_earlier = local_time(earlier, utc_offset);
    lemma_absolute_due_is_next(Some(hour), Some(minute), utc_offset, now);
    lemma_absolute_due_shows_target(Some(hour), Some(minute), utc_offset, now);
    lemma_fundamental_div_mod(second_of_day(local_due), 3600);
    lemma_fundamental_div_mod(second_of_day(local_due) % 3600, 60);
    assert(second_of_day(local_due) == 3600 * hour + 60 * minute);
    lemma_fundamental_div_mod(local_due, 86400);
    lemma_fundamental_div_mod(local_earlier, 86400);
    if second_of_day(local_earlier) == second_of_day(local_due) {
        let days = local_due / 86400 - local_earlier / 86400;
        assert(local_due - local_earlier == 86400 * days);
        assert(0 < local_due - local_earlier < 86400);
    }
}

/// The advance notice of an absolute request is sent exactly three minutes
/// before the request falls due.
pub proof fn lemma_advance_notice_of_absolute(
    hour: Option<u32>,
    minute: Option<u32>,
    utc_offset: int,
    now: int,
)
    ensures
        advance_notice(absolute_due(hour, minute, utc_offset, now)) == absolute_due(
            hour,
            minute,
            utc_offset,
            now,
        ) - 3 * SECS_PER_MINUTE,
{
}

/// Seconds since the last local midnight.
fn seconds_into_day(local: i64) -> (secs: i64)
    ensures
        secs == second_of_day(local as int),
        0 <= secs < SECS_PER_DAY,
{
    let rem: i64 = local % SECS_PER_DAY;
    if rem < 0 {
        rem + SECS_PER_DAY
    } else {
        rem
    }
}

/// Resolves "`hour_offset` hours and `minute_offset` minutes from now".
///
/// The guild's offset plays no part: it only changes how the result is shown.
pub fn resolve_relative(hour_offset: u32, minute_offset: u32, now: i64) -> (due: i64)
    requires
        relative_due(hour_offset as int, minute_offset as int, now as int) <= i64::MAX,
    ensures
        due == relative_due(hour_offset as int, minute_offset as int, now as int),
{
    now + SECS_PER_HOUR * (hour_offset as i64) + SECS_PER_MINUTE * (minute_offset as i64)
}

/// Resolves "the next time the guild's clock shows `hour`:`minute`".
///
/// A field that is `None` is taken from the guild-local "now". With no hour
/// and a minute that has already passed in the current hour, the target is in
/// the next hour. A target that is not strictly after "now" moves to the next
/// day.
pub fn resolve_absolute(hour: Option<u32>, minute: Option<u32>, utc_offset: i32, now: i64) -> (res:
    Result<i64, InvalidTimeComponents>)
    requires
        valid_utc_offset(utc_offset as int),
        clock_in_range(now as int),
    ensures
        res is Ok <==> valid_components(hour, minute),
        res matches Ok(due) ==> {
            &&& due == absolute_due(hour, minute, utc_offset as int, now as int)
            &&& now < due <= now + SECS_PER_DAY
        },
{
    let hour_ok = match hour {
        Some(h) => h <= 23,
        None => true,
    };
    let minute_ok = match minute {
        Some(m) => m <= 59,
        None => true,
    };
    if !hour_ok || !minute_ok {
        return Err(InvalidTimeComponents);
    }
    let shift: i64 = SECS_PER_HOUR * (utc_offset as i64);
    let local_now: i64 = now + shift;
    let into_day: i64 = seconds_into_day(local_now);
    let clock_hour: i64 = into_day / SECS_PER_HOUR;
    let clock_minute: i64 = (into_day % SECS_PER_HOUR) / SECS_PER_MINUTE;
    let target_h: i64 = match hour {
        Some(h) => h as i64,
        None => clock_hour,
    };
    let target_m: i64 = match minute {
        Some(m) => m as i64,
        None => clock_minute,
    };
    let mut candidate: i64 = local_now - into_day + SECS_PER_HOUR * target_h + SECS_PER_MINUTE
        * target_m;
    if hour.is_none() && clock_minute > target_m {
        candidate = candidate + SECS_PER_HOUR;
    }
    if candidate <= local_now {
        candidate = candidate + SECS_PER_DAY;
    }
    proof {
        lemma_absolute_due_is_next(hour, minute, utc_offset as int, now as int);
    }
    Ok(candidate - shift)
}

/// The instant at which the advance notice of a job due at `due` is sent.
///
/// The caller decides whether that instant is still in the future.
pub fn advance_notice_instant(due: i64) -> (notice: i64)
    requires
        i64::MIN + ADVANCE_NOTICE_SECS <= due,
    ensures
        notice == advance_notice(due as int),
{
    due - ADVANCE_NOTICE_SECS
}

} // verus!
