//! The time of a conversion, as it stands in the name of the converted file.

use vstd::prelude::*;
use crate::text;

verus! {

/// The date and time at `seconds` after the beginning of 1970, as chrono writes
/// them by `pattern`; `None` where the time is out of chrono's range.
pub uninterp spec fn formatted_time(seconds: i64, pattern: Seq<char>) -> Option<Seq<char>>;

/// How a file name holds the time: date, underscore, time of day.
pub open spec fn stamp_pattern() -> Seq<char> {
    "%Y%m%d_%H%M%S"@
}

/// Whether `s` has the form of a stamp: eight digits, an underscore, six digits.
pub open spec fn is_stamp(s: Seq<char>) -> bool {
    &&& s.len() == 15
    &&& s[8] == '_'
    &&& forall|i: int| 0 <= i < 15 && i != 8 ==> text::is_digit(#[trigger] s[i])
}

/// The time of day in hours, minutes and seconds, two digits each.
pub open spec fn time_of_day(seconds: nat) -> Seq<char> {
    let s = seconds % 86400;
    text::two_digits(s / 3600) + text::two_digits(s / 60 % 60) + text::two_digits(s % 60)
}

/// The seconds from the beginning of 1970 to the end of 9999, in which a year
/// has four digits.
pub open spec fn has_four_digit_year(seconds: i64) -> bool {
    0 <= seconds < 253402300800
}

/// Calls chrono's `DateTime::format` on the time that `DateTime::from_timestamp`
/// makes of the seconds, if it is in range. The text is `formatted_time` of the arguments. For a year
/// of four digits there is one, and the pattern's items, each padded with zeros,
/// give it the form of a stamp, with the time of day behind the underscore. How
/// the date follows from the seconds is left to the name.
#[verifier::external_body]
fn format_time(seconds: i64, pattern: &str) -> (r: Option<String>)
    requires
        pattern@ == stamp_pattern(),
    ensures
        text::optional_text(r) == formatted_time(seconds, pattern@),
        has_four_digit_year(seconds) ==> r is Some && is_stamp(r->0@) && r->0@.skip(9)
            == time_of_day(seconds as nat),
{
    chrono::DateTime::from_timestamp(seconds, 0).map(|time| time.format(pattern).to_string())
}

/// The stamp of a time, given as the seconds between the beginning of 1970 and
/// the local time, both read off the same calendar.
pub fn timestamp_text(local_seconds: i64) -> (r: Option<String>)
    ensures
        text::optional_text(r) == formatted_time(local_seconds, stamp_pattern()),
        has_four_digit_year(local_seconds) ==> r is Some && is_stamp(r->0@) && r->0@.skip(9)
            == time_of_day(local_seconds as nat),
{
    format_time(local_seconds, "%Y%m%d_%H%M%S")
}

/// The time of day is read off the hours, minutes and seconds of the day, whatever the
/// day, each in two digits.
pub proof fn law_time_of_day(days: nat, hours: nat, minutes: nat, seconds: nat)
    requires
        hours < 24,
        minutes < 60,
        seconds < 60,
    ensures
        time_of_day(days * 86400 + hours * 3600 + minutes * 60 + seconds) == text::two_digits(
            hours,
        ) + text::two_digits(minutes) + text::two_digits(seconds),
        stamp_pattern() == "%Y%m%d_%H%M%S"@,
{
    let s = hours * 3600 + minutes * 60 + seconds;
    assert((days * 86400 + s) % 86400 == s) by (nonlinear_arith)
        requires
            s < 86400,
    ;
    assert(s / 3600 == hours);
    assert(s / 60 == hours * 60 + minutes);
    assert((hours * 60 + minutes) % 60 == minutes);
    assert(s % 60 == seconds);
}

} // verus!
