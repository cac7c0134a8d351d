//! Wall-clock times: what they mean, how they are written, and how they are
//! read. The calendar arithmetic, the parsing and the formatting are
//! `chrono`'s.

use chrono::{DateTime, Datelike, FixedOffset, NaiveDate, NaiveDateTime, SecondsFormat, TimeDelta};
use chrono::{TimeZone, Timelike, Utc};
use vstd::prelude::*;

verus! {

/// A date and time of day as a clock on the wall shows it. A leap second is
/// second 59 with a billion nanoseconds or more.
#[derive(Clone, Copy, Debug, PartialEq, Eq, Structural)]
pub struct Civil {
    pub year: i32,
    pub month: u8,
    pub day: u8,
    pub hour: u8,
    pub minute: u8,
    pub second: u8,
    pub nano: u32,
}

/// An RFC 3339 timestamp: the wall clock that it shows and the wall clock in
/// UTC at that instant.
#[derive(Clone, Copy, Debug, PartialEq, Eq, Structural)]
pub struct Stamp {
    pub local: Civil,
    pub utc: Civil,
}

/// An instant, as seconds since the epoch, and the offset from UTC that holds
/// there, in seconds.
#[derive(Clone, Copy, Debug, PartialEq, Eq, Structural)]
pub struct Moment {
    pub timestamp: i64,
    pub offset: i32,
}

/// Does the Gregorian calendar have a February 29 in `year`?
pub open spec fn is_leap_year(year: int) -> bool {
    year % 4 == 0 && (year % 100 != 0 || year % 400 == 0)
}

/// How many days a month has.
pub open spec fn month_days(year: int, month: int) -> int {
    if month == 2 {
        if is_leap_year(year) {
            29
        } else {
            28
        }
    } else if month == 4 || month == 6 || month == 9 || month == 11 {
        30
    } else {
        31
    }
}

/// How many days of a year lie before a month.
pub open spec fn days_before_month(year: int, month: int) -> int
    decreases month,
{
    if month <= 1 {
        0
    } else {
        days_before_month(year, month - 1) + month_days(year, month - 1)
    }
}

/// How many days lie between January 1 of year 1 and January 1 of `year`.
pub open spec fn days_before_year(year: int) -> int {
    365 * (year - 1) + (year - 1) / 4 - (year - 1) / 100 + (year - 1) / 400
}

/// The day since 1970-01-01.
pub open spec fn day_number(year: int, month: int, day: int) -> int {
    days_before_year(year) - days_before_year(1970) + days_before_month(year, month) + day - 1
}

/// The first year that `chrono` can hold.
pub const MIN_YEAR: i32 = -262143;

/// The last year that `chrono` can hold.
pub const MAX_YEAR: i32 = 262142;

impl Civil {
    /// Is this a date and time that exists, and one that `chrono` can hold?
    pub open spec fn valid(self) -> bool {
        &&& MIN_YEAR <= self.year <= MAX_YEAR
        &&& 1 <= self.month <= 12
        &&& 1 <= self.day <= month_days(self.year as int, self.month as int)
        &&& self.hour < 24
        &&& self.minute < 60
        &&& self.second < 60
        &&& self.nano < 2_000_000_000
        &&& self.nano >= 1_000_000_000 ==> self.second == 59
    }

    /// The seconds since 1970-01-01T00:00:00 on the same clock.
    pub open spec fn seconds(self) -> int {
        day_number(self.year as int, self.month as int, self.day as int) * 86400 + self.hour * 3600
            + self.minute * 60 + self.second
    }

    /// Is this outside of a leap second?
    pub open spec fn ordinary(self) -> bool {
        self.nano < 1_000_000_000
    }
}

/// The first second that `chrono` can hold.
pub open spec fn min_seconds() -> int {
    day_number(MIN_YEAR as int, 1, 1) * 86400
}

/// The last second that `chrono` can hold.
pub open spec fn max_seconds() -> int {
    day_number(MAX_YEAR as int, 12, 31) * 86400 + 86399
}

/// The wall clock that shows `seconds` since 1970 and `nano` nanoseconds.
pub open spec fn at(seconds: int, nano: u32) -> Civil {
    choose|d: Civil| d.valid() && d.nano == nano && #[trigger] d.seconds() == seconds
}

/// The wall clock `n` seconds after `c`, where `chrono` can hold it. A step
/// away from a leap second counts from the second next to it.
pub open spec fn added(c: Civil, n: int) -> Option<Civil> {
    let from = if c.ordinary() || n > 0 {
        c.seconds()
    } else {
        c.seconds() + 1
    };
    if n == 0 {
        Some(c)
    } else if min_seconds() <= from + n <= max_seconds() {
        Some(at(from + n, (c.nano as int % 1_000_000_000) as u32))
    } else {
        None
    }
}

/// A year in ISO 8601: four digits, or more with a sign outside of 0 to 9999.
pub open spec fn year_text(year: int) -> Seq<char> {
    let size = if year < 0 {
        -year
    } else {
        year
    };
    let width: nat = if size < 10000 {
        4
    } else if size < 100000 {
        5
    } else {
        6
    };
    if 0 <= year <= 9999 {
        crate::text::digits(year, 4)
    } else {
        seq![if year < 0 { '-' } else { '+' }] + crate::text::digits(size, width)
    }
}

/// `YYYY-MM-DD`
pub open spec fn date_text(c: Civil) -> Seq<char> {
    year_text(c.year as int) + seq!['-'] + crate::text::digits(c.month as int, 2) + seq!['-']
        + crate::text::digits(c.day as int, 2)
}

/// `HH:MM:SS`; a leap second is second 60.
pub open spec fn clock_text(c: Civil) -> Seq<char> {
    crate::text::digits(c.hour as int, 2) + seq![':'] + crate::text::digits(c.minute as int, 2)
        + seq![':'] + crate::text::digits((c.second + c.nano / 1_000_000_000) as int, 2)
}

/// `YYYY-MM-DDTHH:MM:SS`
pub open spec fn date_time_text(c: Civil) -> Seq<char> {
    date_text(c) + seq!['T'] + clock_text(c)
}

/// `YYYYMMDDTHHMMSSZ`
pub open spec fn basic_utc_text(c: Civil) -> Seq<char> {
    year_text(c.year as int) + crate::text::digits(c.month as int, 2) + crate::text::digits(
        c.day as int,
        2,
    ) + seq!['T'] + crate::text::digits(c.hour as int, 2) + crate::text::digits(c.minute as int, 2)
        + crate::text::digits((c.second + c.nano / 1_000_000_000) as int, 2) + seq!['Z']
}

/// The fraction of a second: nothing, or a dot and 3, 6 or 9 digits.
pub open spec fn fraction_text(c: Civil) -> Seq<char> {
    let nano = c.nano as int % 1_000_000_000;
    if nano == 0 {
        seq![]
    } else if nano % 1_000_000 == 0 {
        seq!['.'] + crate::text::digits(nano / 1_000_000, 3)
    } else if nano % 1_000 == 0 {
        seq!['.'] + crate::text::digits(nano / 1_000, 6)
    } else {
        seq!['.'] + crate::text::digits(nano, 9)
    }
}

/// An offset from UTC, `+HH:MM` or `-HH:MM`, rounded to the minute.
pub open spec fn offset_text(offset: int) -> Seq<char> {
    let size = if offset < 0 {
        -offset
    } else {
        offset
    };
    let minutes = (size + 30) / 60;
    seq![if offset < 0 { '-' } else { '+' }] + crate::text::digits(minutes / 60, 2) + seq![':']
        + crate::text::digits(minutes % 60, 2)
}

/// Are all of these decimal digits?
pub open spec fn all_digits(s: Seq<char>) -> bool {
    forall|i: int| 0 <= i < s.len() ==> crate::text::is_digit(#[trigger] s[i])
}

/// Reads `YYYY-MM-DD`, as midnight of that day.
pub open spec fn plain_date(s: Seq<char>) -> Option<Civil> {
    let c = Civil {
        year: crate::text::number(s.subrange(0, 4)) as i32,
        month: crate::text::number(s.subrange(5, 7)) as u8,
        day: crate::text::number(s.subrange(8, 10)) as u8,
        hour: 0,
        minute: 0,
        second: 0,
        nano: 0,
    };
    if s.len() == 10 && all_digits(s.subrange(0, 4)) && s[4] == '-' && all_digits(s.subrange(5, 7))
        && s[7] == '-' && all_digits(s.subrange(8, 10)) && c.valid() {
        Some(c)
    } else {
        None
    }
}

/// Reads `YYYY-MM-DDTHH:MM:SS`. Second 60 is a leap second.
pub open spec fn plain_date_time(s: Seq<char>) -> Option<Civil> {
    let second = crate::text::number(s.subrange(17, 19));
    let c = Civil {
        hour: crate::text::number(s.subrange(11, 13)) as u8,
        minute: crate::text::number(s.subrange(14, 16)) as u8,
        second: (if second == 60 {
            59
        } else {
            second
        }) as u8,
        nano: if second == 60 {
            1_000_000_000
        } else {
            0
        },
        ..plain_date(s.take(10))->0
    };
    if s.len() == 19 && plain_date(s.take(10)) is Some && s[10] == 'T' && all_digits(
        s.subrange(11, 13),
    ) && s[13] == ':' && all_digits(s.subrange(14, 16)) && s[16] == ':' && all_digits(
        s.subrange(17, 19),
    ) && c.valid() {
        Some(c)
    } else {
        None
    }
}

/// Reads `Z`, `+HH:MM` or `-HH:MM` as seconds east of UTC.
pub open spec fn plain_offset(s: Seq<char>) -> Option<int> {
    let hours = crate::text::number(s.subrange(1, 3));
    let minutes = crate::text::number(s.subrange(4, 6));
    let size = hours * 3600 + minutes * 60;
    if s.len() == 1 && s[0] == 'Z' {
        Some(0)
    } else if s.len() == 6 && (s[0] == '+' || s[0] == '-') && all_digits(s.subrange(1, 3)) && s[3]
        == ':' && all_digits(s.subrange(4, 6)) && hours <= 23 && minutes <= 59 {
        Some(
            if s[0] == '-' {
                -size
            } else {
                size
            },
        )
    } else {
        None
    }
}

/// Where a fraction of a second ends: at the front where there is no dot, else
/// behind 3, 6 or 9 digits.
pub open spec fn fraction_end(s: Seq<char>) -> int {
    if s.len() == 0 || s[0] != '.' {
        0
    } else if s.len() > 4 && !crate::text::is_digit(s[4]) {
        4
    } else if s.len() > 7 && !crate::text::is_digit(s[7]) {
        7
    } else {
        10
    }
}

/// Reads nothing, or a dot with 3, 6 or 9 digits behind it, as nanoseconds.
pub open spec fn plain_fraction(s: Seq<char>) -> Option<int> {
    let scale: int = if s.len() == 4 {
        1_000_000
    } else if s.len() == 7 {
        1_000
    } else {
        1
    };
    if s.len() == 0 {
        Some(0)
    } else if (s.len() == 4 || s.len() == 7 || s.len() == 10) && s[0] == '.' && all_digits(
        s.drop_first(),
    ) {
        Some(crate::text::number(s.drop_first()) * scale)
    } else {
        None
    }
}

/// Reads `YYYY-MM-DDTHH:MM:SS` with a fraction of a second, where there is one,
/// and an offset behind it.
pub open spec fn plain_rfc3339(s: Seq<char>) -> Option<Stamp> {
    let tail = s.skip(19);
    let k = fraction_end(tail);
    if s.len() < 20 || k > tail.len() {
        None
    } else {
        match (
            plain_date_time(s.take(19)),
            plain_fraction(tail.take(k)),
            plain_offset(tail.skip(k)),
        ) {
            (Some(c), Some(nano), Some(offset)) => {
                let local = Civil { nano: (c.nano + nano) as u32, ..c };
                Some(
                    Stamp {
                        local,
                        utc: if offset == 0 {
                            local
                        } else {
                            at(local.seconds() - offset, local.nano)
                        },
                    },
                )
            },
            _ => None,
        }
    }
}

/// What `chrono` makes of a text as an RFC 3339 timestamp.
pub uninterp spec fn parsed_rfc3339(s: Seq<char>) -> Option<Stamp>;

/// What `chrono` makes of a text as `%Y-%m-%dT%H:%M:%S`.
pub uninterp spec fn parsed_date_time(s: Seq<char>) -> Option<Civil>;

/// What `chrono` makes of a text as `%Y-%m-%d`.
pub uninterp spec fn parsed_date(s: Seq<char>) -> Option<Civil>;

/// A text as an RFC 3339 timestamp: read by the plain form where it has that,
/// else what `chrono` makes of it. A text without room for an offset is none,
/// nor is one that does not begin with a digit.
pub open spec fn rfc3339(s: Seq<char>) -> Option<Stamp> {
    if s.len() < 20 || !crate::text::is_digit(s[0]) {
        None
    } else {
        match plain_rfc3339(s) {
            Some(x) => Some(x),
            None => parsed_rfc3339(s),
        }
    }
}

/// A text as a date-time without an offset, in the same way.
pub open spec fn date_time(s: Seq<char>) -> Option<Civil> {
    match plain_date_time(s) {
        Some(c) => Some(c),
        None => parsed_date_time(s),
    }
}

/// A text as a date, in the same way.
pub open spec fn date(s: Seq<char>) -> Option<Civil> {
    match plain_date(s) {
        Some(c) => Some(c),
        None => parsed_date(s),
    }
}

/// `DateTime::parse_from_rfc3339`. The plain form gives the fields that it
/// shows, and the wall clock in UTC is that one less the offset. A text of
/// fewer than twenty characters has no offset and is refused, and so is one that
/// begins with anything but a digit of the year. What comes of the
/// other forms that the function takes (a fraction with another number of
/// digits, a small `t` or a space between date and time) is named. Any result
/// is a date and time that exists.
#[verifier::external_body]
pub(crate) fn parse_rfc3339(s: &str) -> (r: Option<Stamp>)
    ensures
        s@.len() < 20 || !crate::text::is_digit(s@[0]) ==> r is None,
        s@.len() >= 20 && crate::text::is_digit(s@[0]) && plain_rfc3339(s@) is None ==> r
            == parsed_rfc3339(s@),
        s@.len() >= 20 && crate::text::is_digit(s@[0]) && plain_rfc3339(s@) is Some ==> r
            == plain_rfc3339(s@),
        r matches Some(x) ==> x.local.valid() && x.utc.valid(),
{
    match DateTime::parse_from_rfc3339(s) {
        Ok(d) => {
            let (l, u) = (d.naive_local(), d.naive_utc());
            Some(Stamp {
                local: Civil { year: l.year(), month: l.month() as u8, day: l.day() as u8,
                    hour: l.hour() as u8, minute: l.minute() as u8, second: l.second() as u8,
                    nano: l.nanosecond() },
                utc: Civil { year: u.year(), month: u.month() as u8, day: u.day() as u8,
                    hour: u.hour() as u8, minute: u.minute() as u8, second: u.second() as u8,
                    nano: u.nanosecond() },
            })
        }
        Err(_) => None,
    }
}

/// `NaiveDateTime::parse_from_str` with `%Y-%m-%dT%H:%M:%S`. The plain form
/// gives the fields that it shows; what comes of other texts is named. Any
/// result is a date and time that exists.
#[verifier::external_body]
pub(crate) fn parse_date_time(s: &str) -> (r: Option<Civil>)
    ensures
        plain_date_time(s@) is None ==> r == parsed_date_time(s@),
        plain_date_time(s@) is Some ==> r == plain_date_time(s@),
        r matches Some(c) ==> c.valid(),
{
    match NaiveDateTime::parse_from_str(s, "%Y-%m-%dT%H:%M:%S") {
        Ok(n) => Some(Civil { year: n.year(), month: n.month() as u8, day: n.day() as u8,
            hour: n.hour() as u8, minute: n.minute() as u8, second: n.second() as u8,
            nano: n.nanosecond() }),
        Err(_) => None,
    }
}

/// `NaiveDate::parse_from_str` with `%Y-%m-%d`, as midnight. The plain form
/// gives the fields that it shows; what comes of other texts is named. Any
/// result is a date that exists.
#[verifier::external_body]
pub(crate) fn parse_date(s: &str) -> (r: Option<Civil>)
    ensures
        plain_date(s@) is None ==> r == parsed_date(s@),
        plain_date(s@) is Some ==> r == plain_date(s@),
        r matches Some(c) ==> c.valid() && c.hour == 0 && c.minute == 0 && c.second == 0 && c.nano
            == 0,
{
    match NaiveDate::parse_from_str(s, "%Y-%m-%d") {
        Ok(d) => Some(Civil { year: d.year(), month: d.month() as u8, day: d.day() as u8,
            hour: 0, minute: 0, second: 0, nano: 0 }),
        Err(_) => None,
    }
}

/// `NaiveDateTime::checked_add_signed`: the wall clock `n` seconds later, or
/// nothing where that lies outside of what `chrono` can hold.
#[verifier::external_body]
pub(crate) fn add_seconds(c: Civil, n: i64) -> (r: Option<Civil>)
    requires
        c.valid(),
        -9_000_000_000_000_000 <= n <= 9_000_000_000_000_000,
    ensures
        r == added(c, n as int),
        r matches Some(d) ==> d.valid(),
{
    let t = NaiveDate::from_ymd_opt(c.year, c.month as u32, c.day as u32).unwrap()
        .and_hms_nano_opt(c.hour as u32, c.minute as u32, c.second as u32, c.nano).unwrap();
    match t.checked_add_signed(TimeDelta::seconds(n)) {
        Some(n) => Some(Civil { year: n.year(), month: n.month() as u8, day: n.day() as u8,
            hour: n.hour() as u8, minute: n.minute() as u8, second: n.second() as u8,
            nano: n.nanosecond() }),
        None => None,
    }
}

/// The difference of two `NaiveDateTime`s on whole seconds, in seconds.
#[verifier::external_body]
pub(crate) fn seconds_between(from: Civil, to: Civil) -> (r: i64)
    requires
        from.valid(),
        to.valid(),
        from.nano == 0,
        to.nano == 0,
    ensures
        r == to.seconds() - from.seconds(),
{
    let a = NaiveDate::from_ymd_opt(from.year, from.month as u32, from.day as u32).unwrap()
        .and_hms_opt(from.hour as u32, from.minute as u32, from.second as u32).unwrap();
    let b = NaiveDate::from_ymd_opt(to.year, to.month as u32, to.day as u32).unwrap()
        .and_hms_opt(to.hour as u32, to.minute as u32, to.second as u32).unwrap();
    (b - a).num_seconds()
}

/// `NaiveDate::format` with `%Y-%m-%d`.
#[verifier::external_body]
pub(crate) fn format_date(c: Civil) -> (r: String)
    requires
        c.valid(),
    ensures
        r@ == date_text(c),
{
    NaiveDate::from_ymd_opt(c.year, c.month as u32, c.day as u32).unwrap().format("%Y-%m-%d").to_string()
}

/// `NaiveDateTime::format` with `%Y-%m-%dT%H:%M:%S`.
#[verifier::external_body]
pub(crate) fn format_date_time(c: Civil) -> (r: String)
    requires
        c.valid(),
    ensures
        r@ == date_time_text(c),
{
    NaiveDate::from_ymd_opt(c.year, c.month as u32, c.day as u32).unwrap()
        .and_hms_nano_opt(c.hour as u32, c.minute as u32, c.second as u32, c.nano).unwrap()
        .format("%Y-%m-%dT%H:%M:%S").to_string()
}

/// `NaiveDateTime::format` with `%Y%m%dT%H%M%SZ`.
#[verifier::external_body]
pub(crate) fn format_basic_utc(c: Civil) -> (r: String)
    requires
        c.valid(),
    ensures
        r@ == basic_utc_text(c),
{
    NaiveDate::from_ymd_opt(c.year, c.month as u32, c.day as u32).unwrap()
        .and_hms_nano_opt(c.hour as u32, c.minute as u32, c.second as u32, c.nano).unwrap()
        .format("%Y%m%dT%H%M%SZ").to_string()
}

/// `DateTime::to_rfc3339` of a wall clock in UTC.
#[verifier::external_body]
pub(crate) fn format_utc(c: Civil) -> (r: String)
    requires
        c.valid(),
    ensures
        r@ == date_time_text(c) + fraction_text(c) + offset_text(0),
{
    let n = NaiveDate::from_ymd_opt(c.year, c.month as u32, c.day as u32).unwrap()
        .and_hms_nano_opt(c.hour as u32, c.minute as u32, c.second as u32, c.nano).unwrap();
    Utc.from_utc_datetime(&n).to_rfc3339()
}

impl Moment {
    /// Can `chrono` hold the instant, in UTC and at its offset?
    pub open spec fn ok(self) -> bool {
        &&& -86400 < self.offset < 86400
        &&& min_seconds() <= self.timestamp <= max_seconds()
        &&& min_seconds() <= self.timestamp + self.offset <= max_seconds()
    }

    /// The wall clock at the moment's offset.
    pub open spec fn wall(self) -> Civil {
        at(self.timestamp + self.offset, 0)
    }
}

/// The date that the wall clock shows, `NaiveDate::format` with `%Y-%m-%d`.
#[verifier::external_body]
pub(crate) fn format_moment_date(m: Moment) -> (r: String)
    requires
        m.ok(),
    ensures
        r@ == date_text(m.wall()),
{
    FixedOffset::east_opt(m.offset).unwrap().timestamp_opt(m.timestamp, 0).unwrap()
        .naive_local().date().format("%Y-%m-%d").to_string()
}

/// `DateTime::to_rfc3339_opts` in whole seconds, with a numeric offset.
#[verifier::external_body]
pub(crate) fn format_moment(m: Moment) -> (r: String)
    requires
        m.ok(),
    ensures
        r@ == date_time_text(m.wall()) + offset_text(m.offset as int),
{
    FixedOffset::east_opt(m.offset).unwrap().timestamp_opt(m.timestamp, 0).unwrap()
        .to_rfc3339_opts(SecondsFormat::Secs, false)
}

/// `DateTime::to_rfc3339_opts` of an instant in UTC, in whole seconds, with a
/// `Z` for the offset.
#[verifier::external_body]
pub(crate) fn format_zulu(timestamp: i64) -> (r: String)
    requires
        min_seconds() <= timestamp <= max_seconds(),
    ensures
        r@ == date_time_text(at(timestamp as int, 0)) + seq!['Z'],
{
    Utc.timestamp_opt(timestamp, 0).unwrap().to_rfc3339_opts(SecondsFormat::Secs, true)
}

/// `Utc::now`, in seconds since the epoch: the machine's clock decides. The
/// result is one that `chrono` can hold.
#[verifier::external_body]
pub(crate) fn now() -> (r: i64)
    ensures
        min_seconds() <= r <= max_seconds(),
{
    Utc::now().timestamp()
}

/// `DateTime::timestamp` of an RFC 3339 timestamp in UTC, in seconds since
/// the epoch.
#[verifier::external_body]
pub(crate) fn timestamp_of(c: Civil) -> (r: i64)
    requires
        c.valid(),
    ensures
        r == c.seconds(),
{
    NaiveDate::from_ymd_opt(c.year, c.month as u32, c.day as u32).unwrap()
        .and_hms_nano_opt(c.hour as u32, c.minute as u32, c.second as u32, c.nano).unwrap()
        .and_utc().timestamp()
}

/// The seconds of any date and time that `chrono` can hold are below ten
/// thousand billion.
pub proof fn lemma_seconds_bounded(c: Civil)
    requires
        c.valid(),
    ensures
        -10_000_000_000_000 <= c.seconds() <= 10_000_000_000_000,
{
    reveal_with_fuel(days_before_month, 13);
}

/// The days of a year before a month are fewer than a year has.
proof fn lemma_within_year(c: Civil)
    requires
        c.valid(),
    ensures
        0 <= days_before_month(c.year as int, c.month as int) + c.day - 1 <= days_before_month(
            c.year as int,
            12,
        ) + 30,
{
    reveal_with_fuel(days_before_month, 13);
}

/// The last second that `chrono` can hold, as a number.
pub proof fn lemma_last_second()
    ensures
        max_seconds() == 8_210_266_876_799,
        min_seconds() <= 0,
{
    lemma_before_december(MAX_YEAR as int);
}

/// The seconds of any date and time that `chrono` can hold lie between the
/// first and the last.
pub proof fn lemma_seconds_in_range(c: Civil)
    requires
        c.valid(),
    ensures
        min_seconds() <= c.seconds() <= max_seconds(),
{
    lemma_within_year(c);
    lemma_years_ordered(MIN_YEAR as int, c.year as int);
    lemma_years_ordered(c.year + 1, MAX_YEAR + 1);
    lemma_year_step(c.year as int);
    lemma_year_step(MAX_YEAR as int);
}

/// A step between two clocks that `chrono` can hold is one that it can take.
pub proof fn lemma_step_bounded(c: Civil, n: int)
    requires
        c.valid(),
        added(c, n) is Some,
    ensures
        -9_000_000_000_000_000 <= n <= 9_000_000_000_000_000,
{
    lemma_seconds_bounded(c);
    lemma_last_second();
}

/// The days of a year before December.
proof fn lemma_before_december(year: int)
    ensures
        days_before_month(year, 12) == 334 + if is_leap_year(year) {
            1int
        } else {
            0int
        },
{
    reveal_with_fuel(days_before_month, 13);
}

/// Stepping by one raises a quotient exactly at the multiples.
proof fn lemma_quotient_step(n: int, by: int)
    by (nonlinear_arith)
    requires
        by > 0,
    ensures
        n % by == 0 ==> n / by == (n - 1) / by + 1,
        n % by != 0 ==> n / by == (n - 1) / by,
{
}

/// A multiple of 400 is one of 100, and a multiple of 100 is one of 4.
proof fn lemma_centuries(n: int)
    ensures
        n % 400 == 0 ==> n % 100 == 0,
        n % 100 == 0 ==> n % 4 == 0,
{
    if n % 400 == 0 {
        assert(n == 100 * (4 * (n / 400)));
    }
    if n % 100 == 0 {
        assert(n == 4 * (25 * (n / 100)));
    }
}

/// The next year begins 365 or 366 days later.
proof fn lemma_year_step(year: int)
    ensures
        days_before_year(year + 1) == days_before_year(year) + days_before_month(year, 12) + 31,
{
    lemma_before_december(year);
    lemma_quotient_step(year, 4);
    lemma_quotient_step(year, 100);
    lemma_quotient_step(year, 400);
    lemma_centuries(year);
}

/// Every day from the first to the last that `chrono` can hold has a date.
proof fn lemma_day_exists(n: nat) -> (c: Civil)
    requires
        day_number(MIN_YEAR as int, 1, 1) + n <= day_number(MAX_YEAR as int, 12, 31),
    ensures
        c.valid(),
        c.hour == 0 && c.minute == 0 && c.second == 0 && c.nano == 0,
        day_number(c.year as int, c.month as int, c.day as int) == day_number(
            MIN_YEAR as int,
            1,
            1,
        ) + n,
    decreases n,
{
    let midnight = Civil { year: MIN_YEAR, month: 1, day: 1, hour: 0, minute: 0, second: 0, nano: 0 };
    if n == 0 {
        midnight
    } else {
        let p = lemma_day_exists((n - 1) as nat);
        if p.day < month_days(p.year as int, p.month as int) {
            Civil { day: (p.day + 1) as u8, ..p }
        } else if p.month < 12 {
            Civil { month: (p.month + 1) as u8, day: 1, ..p }
        } else {
            lemma_year_step(p.year as int);
            assert(p.year < MAX_YEAR) by {
                if p.year == MAX_YEAR {
                    assert(day_number(p.year as int, 12, 31) == day_number(MAX_YEAR as int, 12, 31));
                }
            }
            Civil { year: (p.year + 1) as i32, month: 1, day: 1, ..p }
        }
    }
}

/// Every second that `chrono` can hold is shown by some wall clock.
pub proof fn lemma_at(seconds: int, nano: u32)
    requires
        min_seconds() <= seconds <= max_seconds(),
        nano < 1_000_000_000,
    ensures
        at(seconds, nano).valid(),
        at(seconds, nano).nano == nano,
        at(seconds, nano).seconds() == seconds,
{
    let days = seconds / 86400;
    let rest = seconds % 86400;
    let p = lemma_day_exists((days - day_number(MIN_YEAR as int, 1, 1)) as nat);
    let c = Civil {
        hour: (rest / 3600) as u8,
        minute: (rest / 60 % 60) as u8,
        second: (rest % 60) as u8,
        nano,
        ..p
    };
    assert(c.valid() && c.nano == nano && c.seconds() == seconds);
}

/// A later year begins later.
proof fn lemma_years_ordered(a: int, b: int)
    requires
        a <= b,
    ensures
        days_before_year(a) <= days_before_year(b),
    decreases b - a,
{
    if a < b {
        lemma_years_ordered(a, b - 1);
        lemma_year_step(b - 1);
        lemma_before_december(b - 1);
    }
}

/// An earlier date has a smaller day number.
proof fn lemma_dates_ordered(c: Civil, d: Civil)
    requires
        c.valid(),
        d.valid(),
        c.year < d.year || c.year == d.year && (c.month < d.month || c.month == d.month && c.day
            < d.day),
    ensures
        day_number(c.year as int, c.month as int, c.day as int) < day_number(
            d.year as int,
            d.month as int,
            d.day as int,
        ),
{
    reveal_with_fuel(days_before_month, 13);
    if c.year < d.year {
        lemma_years_ordered(c.year + 1, d.year as int);
        lemma_year_step(c.year as int);
    }
}

/// Days, hours, minutes and seconds make up one number in one way.
proof fn lemma_parts_unique(
    d: int,
    h: int,
    m: int,
    s: int,
    d2: int,
    h2: int,
    m2: int,
    s2: int,
)
    requires
        d * 86400 + h * 3600 + m * 60 + s == d2 * 86400 + h2 * 3600 + m2 * 60 + s2,
        0 <= h < 24 && 0 <= m < 60 && 0 <= s < 60,
        0 <= h2 < 24 && 0 <= m2 < 60 && 0 <= s2 < 60,
    ensures
        d == d2 && h == h2 && m == m2 && s == s2,
{
    let t = h * 3600 + m * 60 + s;
    let t2 = h2 * 3600 + m2 * 60 + s2;
    assert(0 <= t < 86400 && 0 <= t2 < 86400);
    assert((d - d2) * 86400 == t2 - t);
    assert(d == d2);
    let u = m * 60 + s;
    let u2 = m2 * 60 + s2;
    assert((h - h2) * 3600 == u2 - u);
    assert(h == h2);
    assert((m - m2) * 60 == s2 - s);
}

/// A second and a fraction of it are shown by one wall clock only.
proof fn lemma_clock_unique(c: Civil, d: Civil)
    requires
        c.valid(),
        d.valid(),
        c.seconds() == d.seconds(),
        c.nano == d.nano,
    ensures
        c == d,
{
    let x = day_number(c.year as int, c.month as int, c.day as int);
    let y = day_number(d.year as int, d.month as int, d.day as int);
    lemma_parts_unique(
        x,
        c.hour as int,
        c.minute as int,
        c.second as int,
        y,
        d.hour as int,
        d.minute as int,
        d.second as int,
    );
    if c.year != d.year || c.month != d.month || c.day != d.day {
        if c.year < d.year || c.year == d.year && (c.month < d.month || c.month == d.month && c.day
            < d.day) {
            lemma_dates_ordered(c, d);
        } else {
            lemma_dates_ordered(d, c);
        }
    }
}

/// A wall clock that exists is the one that shows its second.
pub proof fn wall_clock_is_unique(c: Civil)
    requires
        c.valid(),
    ensures
        at(c.seconds(), c.nano) == c,
{
    assert(c.valid() && c.nano == c.nano && c.seconds() == c.seconds());
    lemma_clock_unique(at(c.seconds(), c.nano), c);
}

/// Ten to the power of `width`.
pub open spec fn power(width: nat) -> int
    decreases width,
{
    if width == 0 {
        1
    } else {
        10 * power((width - 1) as nat)
    }
}

/// Reading the padded decimal digits of a number gives the number back.
pub proof fn lemma_digits(n: int, width: nat)
    requires
        0 <= n < power(width),
    ensures
        crate::text::digits(n, width).len() == width,
        all_digits(crate::text::digits(n, width)),
        crate::text::number(crate::text::digits(n, width)) == n,
    decreases width,
{
    if width > 0 {
        lemma_digits(n / 10, (width - 1) as nat);
        let front = crate::text::digits(n / 10, (width - 1) as nat);
        assert(crate::text::digits(n, width).drop_last() =~= front);
    }
}

/// A date in the years 0 to 9999 reads back from its text.
pub proof fn lemma_date_reads_back(c: Civil)
    requires
        c.valid(),
        0 <= c.year <= 9999,
    ensures
        plain_date(date_text(c)) == Some(Civil { hour: 0, minute: 0, second: 0, nano: 0, ..c }),
        date_text(c).len() == 10,
{
    reveal_with_fuel(power, 5);
    lemma_digits(c.year as int, 4);
    lemma_digits(c.month as int, 2);
    lemma_digits(c.day as int, 2);
    let s = date_text(c);
    assert(s.subrange(0, 4) =~= crate::text::digits(c.year as int, 4));
    assert(s.subrange(5, 7) =~= crate::text::digits(c.month as int, 2));
    assert(s.subrange(8, 10) =~= crate::text::digits(c.day as int, 2));
}

/// The text of a date in the years 0 to 9999 is ASCII.
pub proof fn lemma_date_is_ascii(c: Civil)
    requires
        c.valid(),
        0 <= c.year <= 9999,
    ensures
        forall|i: int| 0 <= i < date_text(c).len() ==> (#[trigger] date_text(c)[i]) as int <= 127,
{
    reveal_with_fuel(power, 5);
    lemma_digits(c.year as int, 4);
    lemma_digits(c.month as int, 2);
    lemma_digits(c.day as int, 2);
    let s = date_text(c);
    let y = crate::text::digits(c.year as int, 4);
    let m = crate::text::digits(c.month as int, 2);
    let d = crate::text::digits(c.day as int, 2);
    assert forall|i: int| 0 <= i < s.len() implies (#[trigger] s[i]) as int <= 127 by {
        if i < 4 {
            assert(crate::text::is_digit(y[i]));
        } else if 5 <= i < 7 {
            assert(crate::text::is_digit(m[i - 5]));
        } else if 8 <= i {
            assert(crate::text::is_digit(d[i - 8]));
        }
    }
}

/// A date-time in the years 0 to 9999 reads back from its text, without the
/// fraction of a second.
pub proof fn lemma_date_time_reads_back(c: Civil)
    requires
        c.valid(),
        0 <= c.year <= 9999,
    ensures
        plain_date_time(date_time_text(c)) == Some(
            Civil { nano: (c.nano / 1_000_000_000 * 1_000_000_000) as u32, ..c },
        ),
        date_time_text(c).len() == 19,
        crate::text::is_digit(date_time_text(c)[0]),
{
    lemma_date_reads_back(c);
    lemma_all_digits(c.year as int, 4);
    assert(date_time_text(c)[0] == crate::text::digits(c.year as int, 4)[0]);
    reveal_with_fuel(power, 3);
    let second = (c.second + c.nano / 1_000_000_000) as int;
    lemma_digits(c.hour as int, 2);
    lemma_digits(c.minute as int, 2);
    lemma_digits(second, 2);
    let s = date_time_text(c);
    assert(s.take(10) =~= date_text(c));
    assert(s.subrange(11, 13) =~= crate::text::digits(c.hour as int, 2));
    assert(s.subrange(14, 16) =~= crate::text::digits(c.minute as int, 2));
    assert(s.subrange(17, 19) =~= crate::text::digits(second, 2));
}

/// A fraction of a second reads back from its text.
proof fn lemma_fraction_reads_back(c: Civil, rest: Seq<char>)
    requires
        c.valid(),
        rest.len() > 0,
        !crate::text::is_digit(rest[0]) && rest[0] != '.',
    ensures
        fraction_end(fraction_text(c) + rest) == fraction_text(c).len(),
        plain_fraction(fraction_text(c)) == Some(c.nano as int % 1_000_000_000),
{
    reveal_with_fuel(power, 10);
    let nano = c.nano as int % 1_000_000_000;
    let f = fraction_text(c);
    let s = f + rest;
    if nano == 0 {
        assert(s[0] == rest[0]);
    } else {
        let (n, w): (int, nat) = if nano % 1_000_000 == 0 {
            (nano / 1_000_000, 3)
        } else if nano % 1_000 == 0 {
            (nano / 1_000, 6)
        } else {
            (nano, 9)
        };
        lemma_digits(n, w);
        let d = crate::text::digits(n, w);
        assert(f.drop_first() =~= d);
        assert(s[(w + 1) as int] == rest[0]);
        assert(forall|i: int| 1 <= i <= w ==> s[i] == d[i - 1]);
        assert(w > 3 ==> crate::text::is_digit(d[3]));
        assert(w > 6 ==> crate::text::is_digit(d[6]));
    }
}

/// A date-time in UTC in the years 0 to 9999 reads back from its RFC 3339
/// text, whether that ends in `+00:00` or in `Z`.
pub proof fn lemma_utc_reads_back(c: Civil)
    requires
        c.valid(),
        0 <= c.year <= 9999,
    ensures
        rfc3339(date_time_text(c) + fraction_text(c) + offset_text(0)) == Some(
            Stamp { local: c, utc: c },
        ),
        rfc3339(date_time_text(c) + fraction_text(c) + seq!['Z']) == Some(
            Stamp { local: c, utc: c },
        ),
{
    lemma_date_time_reads_back(c);
    reveal_with_fuel(power, 3);
    lemma_digits(0, 2);
    let o = offset_text(0);
    assert(o.subrange(1, 3) =~= crate::text::digits(0, 2));
    assert(o.subrange(4, 6) =~= crate::text::digits(0, 2));
    lemma_fraction_reads_back(c, o);
    lemma_fraction_reads_back(c, seq!['Z']);
    let f = fraction_text(c);
    let s = date_time_text(c) + f + o;
    assert(s.take(19) =~= date_time_text(c));
    assert(s.skip(19) =~= f + o);
    assert((f + o).take(f.len() as int) =~= f);
    assert((f + o).skip(f.len() as int) =~= o);
    let z = date_time_text(c) + f + seq!['Z'];
    assert(z.take(19) =~= date_time_text(c));
    assert(z.skip(19) =~= f + seq!['Z']);
    assert((f + seq!['Z']).take(f.len() as int) =~= f);
    assert((f + seq!['Z']).skip(f.len() as int) =~= seq!['Z']);
}

/// An offset of whole minutes reads back from its text.
proof fn lemma_offset_reads_back(offset: int)
    requires
        -86400 < offset < 86400,
        offset % 60 == 0,
    ensures
        plain_offset(offset_text(offset)) == Some(offset),
        offset_text(offset).len() == 6,
        offset_text(offset)[0] == '+' || offset_text(offset)[0] == '-',
{
    reveal_with_fuel(power, 3);
    let size = if offset < 0 {
        -offset
    } else {
        offset
    };
    let minutes = (size + 30) / 60;
    assert(minutes * 60 == size);
    lemma_digits(minutes / 60, 2);
    lemma_digits(minutes % 60, 2);
    let o = offset_text(offset);
    assert(o.subrange(1, 3) =~= crate::text::digits(minutes / 60, 2));
    assert(o.subrange(4, 6) =~= crate::text::digits(minutes % 60, 2));
}

/// The text of a moment names that moment: read as an RFC 3339 timestamp, it
/// gives the wall clock and the instant back. That needs an offset of whole
/// minutes and a year of four digits.
pub proof fn moment_reads_back(m: Moment)
    requires
        m.ok(),
        m.offset as int % 60 == 0,
        0 <= m.wall().year <= 9999,
    ensures
        rfc3339(date_time_text(m.wall()) + offset_text(m.offset as int)) == Some(
            Stamp { local: m.wall(), utc: at(m.timestamp as int, 0) },
        ),
        at(m.timestamp as int, 0).seconds() == m.timestamp,
{
    let w = m.wall();
    let o = offset_text(m.offset as int);
    lemma_at(m.timestamp + m.offset, 0);
    lemma_at(m.timestamp as int, 0);
    lemma_date_time_reads_back(w);
    lemma_offset_reads_back(m.offset as int);
    let s = date_time_text(w) + o;
    assert(s.take(19) =~= date_time_text(w));
    assert(s.skip(19) =~= o);
    assert(o.take(0) =~= seq![]);
    assert(o.skip(0) =~= o);
}

/// Does one text come before another of the same length, character by
/// character?
pub open spec fn text_before(a: Seq<char>, b: Seq<char>) -> bool {
    a.len() == b.len() && exists|i: int|
        0 <= i < a.len() && (#[trigger] a[i] as int) < (b[i] as int) && forall|j: int|
            0 <= j < i ==> #[trigger] a[j] == b[j]
}

/// Padded decimal digits are digits, whatever the number.
pub proof fn lemma_all_digits(n: int, width: nat)
    ensures
        crate::text::digits(n, width).len() == width,
        all_digits(crate::text::digits(n, width)),
    decreases width,
{
    if width > 0 {
        lemma_all_digits(n / 10, (width - 1) as nat);
    }
}

/// The digits of a smaller number come first.
proof fn lemma_digits_before(m: int, n: int, width: nat)
    requires
        0 <= m < n < power(width),
    ensures
        text_before(crate::text::digits(m, width), crate::text::digits(n, width)),
    decreases width,
{
    if width > 0 {
        let w = (width - 1) as nat;
        let a = crate::text::digits(m, width);
        let b = crate::text::digits(n, width);
        lemma_all_digits(m / 10, w);
        lemma_all_digits(n / 10, w);
        if m / 10 < n / 10 {
            let x = crate::text::digits(m / 10, w);
            let y = crate::text::digits(n / 10, w);
            lemma_digits_before(m / 10, n / 10, w);
            let i = choose|i: int|
                0 <= i < x.len() && (#[trigger] x[i] as int) < (y[i] as int) && forall|j: int|
                    0 <= j < i ==> #[trigger] x[j] == y[j];
            assert((a[i] as int) < (b[i] as int));
            assert forall|j: int| 0 <= j < i implies #[trigger] a[j] == b[j] by {
                assert(x[j] == y[j]);
            }
        } else {
            assert((a[w as int] as int) < (b[w as int] as int));
        }
    }
}

/// Texts of one length stay in order behind the same text.
proof fn lemma_before_inside(p: Seq<char>, a: Seq<char>, b: Seq<char>, r: Seq<char>, s: Seq<char>)
    requires
        text_before(a, b),
        r.len() == s.len(),
    ensures
        text_before(p + a + r, p + b + s),
{
    let x = p + a + r;
    let y = p + b + s;
    let i = choose|i: int|
        0 <= i < a.len() && (#[trigger] a[i] as int) < (b[i] as int) && forall|j: int|
            0 <= j < i ==> #[trigger] a[j] == b[j];
    let at = p.len() + i;
    assert((x[at] as int) < (y[at] as int));
    assert forall|j: int| 0 <= j < at implies #[trigger] x[j] == y[j] by {
        if j >= p.len() {
            assert(a[j - p.len()] == b[j - p.len()]);
        }
    }
}

/// The basic UTC text of a clock has the form `YYYYMMDDTHHMMSSZ` in the years
/// 0 to 9999.
pub proof fn basic_utc_has_one_form(c: Civil)
    requires
        c.valid(),
        0 <= c.year <= 9999,
    ensures
        basic_utc_text(c).len() == 16,
        all_digits(basic_utc_text(c).take(8)),
        basic_utc_text(c)[8] == 'T',
        all_digits(basic_utc_text(c).subrange(9, 15)),
        basic_utc_text(c)[15] == 'Z',
{
    let second = (c.second + c.nano / 1_000_000_000) as int;
    lemma_all_digits(c.year as int, 4);
    lemma_all_digits(c.month as int, 2);
    lemma_all_digits(c.day as int, 2);
    lemma_all_digits(c.hour as int, 2);
    lemma_all_digits(c.minute as int, 2);
    lemma_all_digits(second, 2);
    let date = crate::text::digits(c.year as int, 4) + crate::text::digits(c.month as int, 2)
        + crate::text::digits(c.day as int, 2);
    let time = crate::text::digits(c.hour as int, 2) + crate::text::digits(c.minute as int, 2)
        + crate::text::digits(second, 2);
    assert(basic_utc_text(c) =~= date + seq!['T'] + time + seq!['Z']);
    assert(basic_utc_text(c).take(8) =~= date);
    assert(basic_utc_text(c).subrange(9, 15) =~= time);
}

/// The basic UTC text of a clock holds no line break.
pub proof fn lemma_basic_utc_is_one_line(c: Civil)
    ensures
        !basic_utc_text(c).contains('\n'),
{
    let size = if c.year < 0 {
        -c.year
    } else {
        c.year as int
    };
    lemma_all_digits(size, 4);
    lemma_all_digits(size, 5);
    lemma_all_digits(size, 6);
    lemma_all_digits(c.month as int, 2);
    lemma_all_digits(c.day as int, 2);
    lemma_all_digits(c.hour as int, 2);
    lemma_all_digits(c.minute as int, 2);
    lemma_all_digits((c.second + c.nano / 1_000_000_000) as int, 2);
    let y = year_text(c.year as int);
    assert forall|i: int| 0 <= i < y.len() implies #[trigger] y[i] != '\n' by {
        let width: nat = if size < 10000 {
            4
        } else if size < 100000 {
            5
        } else {
            6
        };
        let d = crate::text::digits(size, width);
        if 0 <= c.year <= 9999 {
            assert(y[i] == d[i]);
        } else if i > 0 {
            assert(y[i] == d[i - 1]);
        }
    }
    let t = basic_utc_text(c);
    assert forall|i: int| 0 <= i < t.len() implies #[trigger] t[i] != '\n' by {
        let at = i - y.len();
        if at < 0 {
            assert(t[i] == y[i]);
        } else if at < 2 {
            assert(t[i] == crate::text::digits(c.month as int, 2)[at]);
        } else if at < 4 {
            assert(t[i] == crate::text::digits(c.day as int, 2)[at - 2]);
        } else if at == 4 {
            assert(t[i] == 'T');
        } else if at < 7 {
            assert(t[i] == crate::text::digits(c.hour as int, 2)[at - 5]);
        } else if at < 9 {
            assert(t[i] == crate::text::digits(c.minute as int, 2)[at - 7]);
        } else if at < 11 {
            assert(t[i] == crate::text::digits(
                (c.second + c.nano / 1_000_000_000) as int,
                2,
            )[at - 9]);
        } else {
            assert(t[i] == 'Z');
        }
    }
}

/// Clocks that show the same second have the same basic UTC text.
pub proof fn same_second_has_one_text(c: Civil, d: Civil)
    requires
        c.valid(),
        d.valid(),
        c.seconds() == d.seconds(),
        c.ordinary() == d.ordinary(),
    ensures
        basic_utc_text(c) == basic_utc_text(d),
{
    lemma_clock_unique(Civil { nano: 0, ..c }, Civil { nano: 0, ..d });
    assert(c.nano / 1_000_000_000 == d.nano / 1_000_000_000);
}

/// Of two clocks that show different seconds, the first part in which they
/// differ is the smaller for the earlier one.
proof fn lemma_parts_ordered(c: Civil, d: Civil)
    requires
        c.valid(),
        d.valid(),
        c.seconds() < d.seconds(),
    ensures
        ({
            ||| c.year < d.year
            ||| c.year == d.year && c.month < d.month
            ||| c.year == d.year && c.month == d.month && c.day < d.day
            ||| c.year == d.year && c.month == d.month && c.day == d.day && ({
                ||| c.hour < d.hour
                ||| c.hour == d.hour && c.minute < d.minute
                ||| c.hour == d.hour && c.minute == d.minute && c.second < d.second
            })
        }),
{
    if d.year < c.year || d.year == c.year && (d.month < c.month || d.month == c.month && d.day
        < c.day) {
        lemma_dates_ordered(d, c);
    }
}

/// Later seconds have later basic UTC texts, in the years 0 to 9999.
pub proof fn later_second_has_later_text(c: Civil, d: Civil)
    requires
        c.valid(),
        d.valid(),
        0 <= c.year <= 9999,
        0 <= d.year <= 9999,
        c.seconds() < d.seconds(),
    ensures
        text_before(basic_utc_text(c), basic_utc_text(d)),
{
    lemma_parts_ordered(c, d);
    reveal_with_fuel(power, 5);
    let cs = (c.second + c.nano / 1_000_000_000) as int;
    let ds = (d.second + d.nano / 1_000_000_000) as int;
    let (c1, d1) = (crate::text::digits(c.year as int, 4), crate::text::digits(d.year as int, 4));
    let (c2, d2) = (crate::text::digits(c.month as int, 2), crate::text::digits(d.month as int, 2));
    let (c3, d3) = (crate::text::digits(c.day as int, 2), crate::text::digits(d.day as int, 2));
    let (c4, d4) = (crate::text::digits(c.hour as int, 2), crate::text::digits(d.hour as int, 2));
    let (c5, d5) = (
        crate::text::digits(c.minute as int, 2),
        crate::text::digits(d.minute as int, 2),
    );
    let (c6, d6) = (crate::text::digits(cs, 2), crate::text::digits(ds, 2));
    let z = seq!['Z'];
    let t = seq!['T'];
    let a = basic_utc_text(c);
    let b = basic_utc_text(d);
    lemma_all_digits(c.year as int, 4);
    lemma_all_digits(d.year as int, 4);
    lemma_all_digits(c.month as int, 2);
    lemma_all_digits(d.month as int, 2);
    lemma_all_digits(c.day as int, 2);
    lemma_all_digits(d.day as int, 2);
    lemma_all_digits(c.hour as int, 2);
    lemma_all_digits(d.hour as int, 2);
    lemma_all_digits(c.minute as int, 2);
    lemma_all_digits(d.minute as int, 2);
    lemma_all_digits(cs, 2);
    lemma_all_digits(ds, 2);
    let none = Seq::<char>::empty();
    if c.year < d.year {
        let (r, s) = (c2 + c3 + t + c4 + c5 + c6 + z, d2 + d3 + t + d4 + d5 + d6 + z);
        lemma_digits_before(c.year as int, d.year as int, 4);
        lemma_before_inside(none, c1, d1, r, s);
        assert(a =~= none + c1 + r);
        assert(b =~= none + d1 + s);
    } else if c.month < d.month {
        let (r, s) = (c3 + t + c4 + c5 + c6 + z, d3 + t + d4 + d5 + d6 + z);
        lemma_digits_before(c.month as int, d.month as int, 2);
        lemma_before_inside(c1, c2, d2, r, s);
        assert(a =~= c1 + c2 + r);
        assert(b =~= c1 + d2 + s);
    } else if c.day < d.day {
        let (r, s) = (t + c4 + c5 + c6 + z, t + d4 + d5 + d6 + z);
        lemma_digits_before(c.day as int, d.day as int, 2);
        lemma_before_inside(c1 + c2, c3, d3, r, s);
        assert(a =~= c1 + c2 + c3 + r);
        assert(b =~= c1 + c2 + d3 + s);
    } else if c.hour < d.hour {
        let (r, s) = (c5 + c6 + z, d5 + d6 + z);
        lemma_digits_before(c.hour as int, d.hour as int, 2);
        lemma_before_inside(c1 + c2 + c3 + t, c4, d4, r, s);
        assert(a =~= c1 + c2 + c3 + t + c4 + r);
        assert(b =~= c1 + c2 + c3 + t + d4 + s);
    } else if c.minute < d.minute {
        let (r, s) = (c6 + z, d6 + z);
        lemma_digits_before(c.minute as int, d.minute as int, 2);
        lemma_before_inside(c1 + c2 + c3 + t + c4, c5, d5, r, s);
        assert(a =~= c1 + c2 + c3 + t + c4 + c5 + r);
        assert(b =~= c1 + c2 + c3 + t + c4 + d5 + s);
    } else {
        lemma_digits_before(cs, ds, 2);
        lemma_before_inside(c1 + c2 + c3 + t + c4 + c5, c6, d6, z, z);
    }
}

/// Outside of the years 0 to 9999 the text of a date and time begins with a
/// sign.
pub proof fn lemma_other_years_are_signed(c: Civil)
    requires
        !(0 <= c.year <= 9999),
    ensures
        date_time_text(c).len() > 0,
        !crate::text::is_digit(date_time_text(c)[0]),
{
    let sign = if c.year < 0 {
        '-'
    } else {
        '+'
    };
    assert(year_text(c.year as int)[0] == sign);
    assert(date_time_text(c)[0] == year_text(c.year as int)[0]);
}

} // verus!
