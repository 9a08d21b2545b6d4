//! Showing due instants on a guild's wall clock.

use vstd::prelude::*;
use crate::timezone::valid_utc_offset;
use crate::timezone::SECS_PER_HOUR;
use crate::timezone::TimeZone;

verus! {

/// The pattern in which due instants are shown: month and day, the time of
/// day, and the offset from UTC.
pub const DT_FORMAT: &'static str = "%m/%d %H:%M:%S (%:z)";

/// What chrono writes for the instant `secs` seconds after the Unix epoch,
/// seen `offset_secs` seconds east of UTC, under the strftime pattern
/// `pattern`; `None` where chrono has no such offset or instant, or does not
/// accept the pattern.
pub uninterp spec fn chrono_format(secs: int, offset_secs: int, pattern: Seq<char>) -> Option<Seq<char>>;

/// Formats an instant with chrono: `FixedOffset::east_opt` gives the zone,
/// `DateTime::from_timestamp` the instant, `DateTime::with_timezone` moves it
/// to the zone, and `DateTime::format` with `DelayedFormat::write_to` writes
/// it under `pattern`. The contract names the text that chrono writes and
/// claims nothing else of it.
#[verifier::external_body]
fn format_at_offset(secs: i64, offset_secs: i32, pattern: &str) -> (text: Option<String>)
    ensures
        text.deep_view() == chrono_format(secs as int, offset_secs as int, pattern@),
{
    let zone = chrono::FixedOffset::east_opt(offset_secs)?;
    let local = chrono::DateTime::from_timestamp(secs, 0)?.with_timezone(&zone);
    let mut text = String::new();
    local.format(pattern).write_to(&mut text).ok()?;
    Some(text)
}

/// The text of a due instant for a guild whose offset is `utc_offset` hours.
pub open spec fn due_text(due_at: int, utc_offset: int) -> Option<Seq<char>> {
    if valid_utc_offset(utc_offset) {
        chrono_format(due_at, SECS_PER_HOUR * utc_offset, DT_FORMAT@)
    } else {
        None
    }
}

/// Shows a due instant on the wall clock of a guild, in the pattern
/// [`DT_FORMAT`].
///
/// There is no text for an offset that no guild can have, nor for an instant
/// that the calendar does not reach.
pub fn format_due(due_at: i64, utc_offset: i32) -> (text: Option<String>)
    ensures
        text.deep_view() == due_text(due_at as int, utc_offset as int),
{
    match TimeZone::from_hours(utc_offset as i64) {
        Some(zone) => format_at_offset(due_at, zone.seconds(), DT_FORMAT),
        None => None,
    }
}

} // verus!
