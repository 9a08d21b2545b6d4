//! UTC offsets of guilds, in whole hours.

use vstd::prelude::*;
use vstd::string::StringExecFns;

verus! {

/// The westernmost offset a guild can have, in hours.
pub const MIN_UTC_OFFSET: i32 = -12;

/// The easternmost offset a guild can have, in hours.
pub const MAX_UTC_OFFSET: i32 = 12;

pub const SECS_PER_HOUR: i64 = 3600;

/// Whether `hours` is an offset that a guild may be set to.
pub open spec fn valid_utc_offset(hours: int) -> bool {
    MIN_UTC_OFFSET <= hours <= MAX_UTC_OFFSET
}

/// Decides whether `hours` is an offset that a guild may be set to.
pub fn is_valid_utc_offset(hours: i64) -> (valid: bool)
    ensures
        valid == valid_utc_offset(hours as int),
{
    MIN_UTC_OFFSET as i64 <= hours && hours <= MAX_UTC_OFFSET as i64
}

/// The character that shows the decimal digit `n`.
pub open spec fn digit(n: int) -> char {
    ('0' as int + n) as char
}

/// How an offset is written: the sign, two digits of hours, a colon and two
/// digits of minutes, as in `+09:00`.
pub open spec fn offset_label(hours: int) -> Seq<char> {
    let magnitude = if hours < 0 {
        -hours
    } else {
        hours
    };
    seq![
        if hours < 0 {
            '-'
        } else {
            '+'
        },
        digit(magnitude / 10),
        digit(magnitude % 10),
        ':',
        '0',
        '0',
    ]
}

/// The text of one decimal digit.
fn digit_text(n: i32) -> (text: &'static str)
    requires
        0 <= n <= 9,
    ensures
        text@ == seq![digit(n as int)],
{
    proof {
        reveal_strlit("0");
        reveal_strlit("1");
        reveal_strlit("2");
        reveal_strlit("3");
        reveal_strlit("4");
        reveal_strlit("5");
        reveal_strlit("6");
        reveal_strlit("7");
        reveal_strlit("8");
        reveal_strlit("9");
    }
    let text = match n {
        0 => "0",
        1 => "1",
        2 => "2",
        3 => "3",
        4 => "4",
        5 => "5",
        6 => "6",
        7 => "7",
        8 => "8",
        _ => "9",
    };
    assert(text@ =~= seq![digit(n as int)]);
    text
}

/// The UTC offset of a guild: a whole number of hours between -12 and 12.
#[derive(Clone, Copy, Debug, PartialEq, Eq, Structural)]
pub struct TimeZone {
    hours: i32,
}

impl View for TimeZone {
    type V = int;

    /// The offset in hours.
    closed spec fn view(&self) -> int {
        self.hours as int
    }
}

impl TimeZone {
    /// What holds of every offset that this library hands out.
    pub open spec fn wf(&self) -> bool {
        valid_utc_offset(self@)
    }

    /// UTC itself.
    pub fn utc() -> (zone: TimeZone)
        ensures
            zone.wf(),
            zone@ == 0,
    {
        TimeZone { hours: 0 }
    }

    /// The offset of `hours` hours, if a guild may be set to it.
    pub fn from_hours(hours: i64) -> (zone: Option<TimeZone>)
        ensures
            zone is Some <==> valid_utc_offset(hours as int),
            zone matches Some(z) ==> z@ == hours && z.wf(),
    {
        if is_valid_utc_offset(hours) {
            Some(TimeZone { hours: hours as i32 })
        } else {
            None
        }
    }

    /// The offset in hours.
    pub fn hours(&self) -> (hours: i32)
        ensures
            hours == self@,
    {
        self.hours
    }

    /// The offset in seconds: what to add to a UTC instant for the local time.
    pub fn seconds(&self) -> (secs: i32)
        requires
            self.wf(),
        ensures
            secs == SECS_PER_HOUR * self@,
    {
        3600 * self.hours
    }

    /// The offset as it is shown to users, such as `+09:00`.
    pub fn label(&self) -> (text: String)
        requires
            self.wf(),
        ensures
            text@ == offset_label(self@),
    {
        proof {
            reveal_strlit("-");
            reveal_strlit("+");
            reveal_strlit(":00");
        }
        let magnitude: i32 = if self.hours < 0 {
            -self.hours
        } else {
            self.hours
        };
        let sign: &str = if self.hours < 0 {
            "-"
        } else {
            "+"
        };
        let mut text = String::from_str(sign);
        text.append(digit_text(magnitude / 10));
        text.append(digit_text(magnitude % 10));
        text.append(":00");
        assert(text@ =~= offset_label(self@));
        text
    }
}

} // verus!
