//! Points in time as text, read and written with `chrono`.

use vstd::prelude::*;

use crate::text::opt_text;

verus! {

/// The milliseconds since 1970-01-01T00:00:00Z of a text that
/// `chrono::DateTime::parse_from_rfc3339` reads; `None` where it refuses it.
pub uninterp spec fn rfc3339_millis(text: Seq<char>) -> Option<i64>;

/// `chrono::DateTime::parse_from_rfc3339`, then `timestamp_millis` of what it read.
#[verifier::external_body]
fn parse_rfc3339_millis(text: &str) -> (millis: Option<i64>)
    ensures
        millis == rfc3339_millis(text@),
{
    chrono::DateTime::parse_from_rfc3339(text).ok().map(|moment| moment.timestamp_millis())
}

/// The milliseconds since 1970 of an RFC 3339 text; `None` where it is not one.
pub fn millis_of(text: &str) -> (millis: Option<i64>)
    ensures
        millis == rfc3339_millis(text@),
{
    parse_rfc3339_millis(text)
}

/// The pattern of the stamp in a rollout's file name.
pub open spec fn stamp_pattern() -> Seq<char> {
    "%Y-%m-%dT%H-%M-%S"@
}

/// Whether a text is one of the patterns that are used.
pub open spec fn is_pattern(pattern: Seq<char>) -> bool {
    pattern == "%Y"@ || pattern == "%m"@ || pattern == "%d"@ || pattern == stamp_pattern()
}

/// What `chrono` writes for a moment, given in seconds since 1970, in UTC and with a
/// pattern; `None` where the moment is beyond its calendar.
pub uninterp spec fn utc_text(seconds: i64, pattern: Seq<char>) -> Option<Seq<char>>;

/// Whether a character is a decimal digit.
pub open spec fn is_digit(ch: char) -> bool {
    '0' <= ch <= '9'
}

/// Whether a text has the form `YYYY-MM-DDTHH-MM-SS`.
pub open spec fn is_stamp(text: Seq<char>) -> bool {
    &&& text.len() == 19
    &&& text[4] == '-' && text[7] == '-' && text[10] == 'T' && text[13] == '-' && text[16] == '-'
    &&& forall|i: int|
        0 <= i < 19 && i != 4 && i != 7 && i != 10 && i != 13 && i != 16 ==> is_digit(
            #[trigger] text[i],
        )
}

/// Whether a moment lies in the years from 1970 to 9999.
pub open spec fn four_digit_year(seconds: i64) -> bool {
    0 <= seconds <= 253402300799
}

/// Whether a written moment has the form that its pattern gives it in the years from 1970
/// to 9999.
pub open spec fn fits_pattern(
    written: Option<Seq<char>>,
    seconds: i64,
    pattern: Seq<char>,
) -> bool {
    four_digit_year(seconds) ==> written is Some && (pattern == stamp_pattern() ==> is_stamp(
        written->Some_0,
    ))
}

/// `chrono::DateTime::from_timestamp`, then `format` with a pattern that has only fields
/// which every moment has. In the years from 1970 to 9999 a year has four digits and every
/// other field two, so a stamp has its fixed form.
#[verifier::external_body]
fn format_utc(seconds: i64, pattern: &str) -> (written: Option<String>)
    requires
        is_pattern(pattern@),
    ensures
        opt_text(written) == utc_text(seconds, pattern@),
        fits_pattern(opt_text(written), seconds, pattern@),
{
    chrono::DateTime::from_timestamp(seconds, 0).map(|moment| moment.format(pattern).to_string())
}

/// The parts of a rollout's place that a moment gives: year, month and day, and the stamp.
pub struct MomentTexts {
    pub year: String,
    pub month: String,
    pub day: String,
    pub stamp: String,
}

/// The parts of a rollout's place that a moment gives; `None` where the moment is beyond
/// the calendar.
pub fn moment_texts(seconds: i64) -> (moment: Option<MomentTexts>)
    ensures
        match moment {
            Some(moment) => utc_text(seconds, "%Y"@) == Some(moment.year@) && utc_text(
                seconds,
                "%m"@,
            ) == Some(moment.month@) && utc_text(seconds, "%d"@) == Some(moment.day@) && utc_text(
                seconds,
                stamp_pattern(),
            ) == Some(moment.stamp@),
            None => utc_text(seconds, "%Y"@) is None || utc_text(seconds, "%m"@) is None
                || utc_text(seconds, "%d"@) is None || utc_text(seconds, stamp_pattern()) is None,
        },
        four_digit_year(seconds) ==> (moment matches Some(moment) && is_stamp(moment.stamp@)),
{
    let year = format_utc(seconds, "%Y");
    let month = format_utc(seconds, "%m");
    let day = format_utc(seconds, "%d");
    let stamp = format_utc(seconds, "%Y-%m-%dT%H-%M-%S");
    match (year, month, day, stamp) {
        (Some(year), Some(month), Some(day), Some(stamp)) => Some(
            MomentTexts { year, month, day, stamp },
        ),
        _ => None,
    }
}

} // verus!
