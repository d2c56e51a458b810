//! Dates and times of `chrono`. A date is held by its number, counting January 1 of year 1 as day
//! one; a moment is held by the seconds since the epoch and the nanoseconds after that.
use crate::text::text_before;
use vstd::prelude::*;

verus! {

/// The number of the first date that `chrono` can hold.
pub const MIN_DAY: i32 = -95_746_129;

/// The number of the last date that `chrono` can hold.
pub const MAX_DAY: i32 = 95_745_399;

/// The number of January 1 of the year -1, whose texts start with a minus sign and come before those
/// of the year 0.
pub const FIRST_PLAIN_DAY: i32 = -730;

/// The number of December 31 of the year 9999, the last one that is written with four digits.
pub const LAST_PLAIN_DAY: i32 = 3_652_059;

/// The number of January 1, 1970.
pub const EPOCH_DAY: i32 = 719_163;

/// A bound on the moments that RFC 3339 can write: one day before the year 0.
pub const MIN_MOMENT: i64 = -62_167_305_600;

/// A bound on the moments that RFC 3339 can write: one day after the year 9999.
pub const MAX_MOMENT: i64 = 253_402_387_199;

/// The date that `NaiveDate::parse_from_str` reads from a text with the format `%Y-%m-%d`.
pub uninterp spec fn date_number(text: Seq<char>) -> Option<i32>;

/// The text that a date gives with the format `%Y-%m-%d`.
pub uninterp spec fn date_text(day: i32) -> Seq<char>;

/// The moment that `DateTime::parse_from_rfc3339` reads from a text: the seconds since the epoch and
/// the nanoseconds after that.
pub uninterp spec fn moment_of(text: Seq<char>) -> Option<(i64, u32)>;

/// Whether `chrono` can hold nanoseconds after a second: less than a second of them, or less than two
/// in the last second of a minute, which is how it holds a leap second.
pub open spec fn holds_nanos(seconds: i64, nanos: u32) -> bool {
    nanos < 1_000_000_000 || (nanos < 2_000_000_000 && seconds as int % 60 == 59)
}

/// Whether a date is from the year -1 to the year 9999: there, the texts are in the order of the
/// dates. Every date that is written as four digits, two and two is one of these, and so are the
/// thirty days before it.
pub open spec fn plain_day(day: i32) -> bool {
    FIRST_PLAIN_DAY <= day <= LAST_PLAIN_DAY
}

/// Whether `day` is the date of the moment `seconds` in some time zone: the date of the moment
/// shifted by less than a day.
pub open spec fn date_in_some_zone(seconds: i64, day: i32) -> bool {
    exists|offset: int|
        -86400 < offset < 86400 && #[trigger] shifted_date(seconds as int, offset) == day
}

/// The number of the date of a moment in the time zone `offset` seconds east of UTC.
pub open spec fn shifted_date(seconds: int, offset: int) -> int {
    (seconds + offset) / 86400 + EPOCH_DAY
}

/// `NaiveDate::parse_from_str` with the format `%Y-%m-%d`, and the number of the date.
#[verifier::external_body]
pub(crate) fn parse_date(text: &str) -> (r: Option<i32>)
    ensures
        r == date_number(text@),
        r matches Some(day) ==> MIN_DAY <= day <= MAX_DAY,
{
    let date = chrono::NaiveDate::parse_from_str(text, "%Y-%m-%d").ok()?;
    Some(chrono::Datelike::num_days_from_ce(&date))
}

/// `NaiveDate::format` with `%Y-%m-%d`, for the date of a number. From the year -1, which is written
/// with a minus sign, to the year 9999, later dates give texts that come later in dictionary order,
/// and `parse_date` reads the date back.
#[verifier::external_body]
pub(crate) fn format_date(day: i32) -> (r: String)
    requires
        MIN_DAY <= day <= MAX_DAY,
    ensures
        r@ == date_text(day),
        plain_day(day) ==> date_number(r@) == Some(day),
        plain_day(day) ==> forall|later: i32|
            plain_day(later) && day < later ==> text_before(r@, #[trigger] date_text(later)),
        plain_day(day) ==> forall|earlier: i32|
            plain_day(earlier) && earlier < day ==> text_before(#[trigger] date_text(earlier), r@),
{
    let date = chrono::NaiveDate::from_num_days_from_ce_opt(day).unwrap();
    date.format("%Y-%m-%d").to_string()
}

/// `DateTime::parse_from_rfc3339`, and the moment in seconds since the epoch and nanoseconds after
/// that. The years that it reads have four digits, and an offset is less than a day and a number of
/// minutes, so that a leap second stays at the end of a minute.
#[verifier::external_body]
pub(crate) fn parse_moment(text: &str) -> (r: Option<(i64, u32)>)
    ensures
        r == moment_of(text@),
        r matches Some((seconds, nanos)) ==> MIN_MOMENT <= seconds <= MAX_MOMENT && holds_nanos(
            seconds,
            nanos,
        ),
{
    let moment = chrono::DateTime::parse_from_rfc3339(text).ok()?;
    Some((moment.timestamp(), moment.timestamp_subsec_nanos()))
}

/// `DateTime::with_timezone` to `Local`, and the number of the date there. Which date that is
/// depends on the time zone of the machine; the offset of a zone is less than a day and a number of
/// seconds, so that the date is that of the shifted second.
#[verifier::external_body]
pub(crate) fn local_date(seconds: i64, nanos: u32) -> (day: i32)
    requires
        MIN_MOMENT <= seconds <= MAX_MOMENT,
        holds_nanos(seconds, nanos),
    ensures
        date_in_some_zone(seconds, day),
{
    let moment = chrono::DateTime::from_timestamp(seconds, nanos).unwrap();
    chrono::Datelike::num_days_from_ce(&moment.with_timezone(&chrono::Local).date_naive())
}

/// `Local::now`, and the number of the date. The clock of the machine decides; `chrono` panics where
/// it is before the epoch, and the offset of a zone is less than a day.
#[verifier::external_body]
pub(crate) fn local_today() -> (day: i32)
    ensures
        EPOCH_DAY - 1 <= day <= MAX_DAY,
{
    chrono::Datelike::num_days_from_ce(&chrono::Local::now().date_naive())
}

/// Whether a text has the form of a moment of UTC as `to_rfc3339` writes it: it ends with the offset
/// of UTC, and it is long enough for the date and the time before that.
pub open spec fn is_utc_time(text: Seq<char>) -> bool {
    text.len() >= 25 && text.skip(text.len() - 6) == "+00:00"@
}

/// `Utc::now` as an RFC 3339 text. The clock of the machine decides which; it is in UTC. `chrono`
/// panics where the clock is before the epoch.
#[verifier::external_body]
pub(crate) fn utc_now_rfc3339() -> (r: String)
    ensures
        is_utc_time(r@),
{
    chrono::Utc::now().to_rfc3339()
}

/// Whether a text is a year and a month as the format `%Y-%m` writes them: at least four digits,
/// after a sign if there is one, and then a hyphen and the two digits of a month.
pub open spec fn is_year_month(text: Seq<char>) -> bool {
    let n = text.len() as int;
    &&& n >= 7
    &&& forall|i: int|
        0 <= i < n - 3 ==> '0' <= #[trigger] text[i] <= '9' || (i == 0 && n >= 8 && (text[i] == '+'
            || text[i] == '-'))
    &&& text[n - 3] == '-'
    &&& '0' <= text[n - 2] <= '1'
    &&& '0' <= text[n - 1] <= '9'
    &&& 1 <= 10 * (text[n - 2] as int - '0' as int) + (text[n - 1] as int - '0' as int) <= 12
}

/// `Utc::now` with the format `%Y-%m`. The clock of the machine decides; `chrono` panics where it is
/// before the epoch.
#[verifier::external_body]
pub(crate) fn utc_year_month() -> (r: String)
    ensures
        is_year_month(r@),
{
    chrono::Utc::now().format("%Y-%m").to_string()
}

} // verus!
