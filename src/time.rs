//! Dates, times of day and periods: their text forms, their encodings, and
//! the clock.

use vstd::bytes::*;
use vstd::prelude::*;
use vstd::slice::*;
use vstd::string::*;

use crate::error::{GlobalError, Record, Syntax};
use crate::text::{
    decimal, parse_uint, parse_unsigned, push_decimal, push_zero_padded, split_first, split_once,
    str_eq, zero_padded,
};

verus! {

/// Whether `e` reports that `value` does not follow `syntax`.
pub open spec fn is_parse_error(e: GlobalError, syntax: Syntax, value: Seq<char>) -> bool {
    e matches GlobalError::Parse { syntax: s, value: v } && s == syntax && v@ == value
}

/// A span of time counted in days, weeks, months or years.
///
/// Months are thirty days and years are 365 days: a fixed approximation of
/// the calendar.
#[derive(Debug, Clone, Copy, PartialEq, Eq, Structural)]
pub enum Period {
    Days(u32),
    Weeks(u32),
    Months(u32),
    Years(u32),
}

impl Period {
    /// The number of days that the period spans.
    pub open spec fn spec_days(self) -> nat {
        match self {
            Period::Days(n) => n as nat,
            Period::Weeks(n) => n as nat * 7,
            Period::Months(n) => n as nat * 30,
            Period::Years(n) => n as nat * 365,
        }
    }

    /// The number of days that the period spans.
    pub fn as_days(&self) -> (r: u64)
        ensures
            r == self.spec_days(),
    {
        match self {
            Period::Days(n) => *n as u64,
            Period::Weeks(n) => *n as u64 * 7,
            Period::Months(n) => *n as u64 * 30,
            Period::Years(n) => *n as u64 * 365,
        }
    }

    /// The date that lies the period before `year-month-day`, or the smallest
    /// date where the calendar cannot go back that far.
    pub open spec fn spec_date_since(self, year: i32, month: u8, day: u8) -> Date {
        Date::spec_from_found(calendar_days_before(year, month, day, self.spec_days() as u64))
    }

    /// The date that lies the period before the calendar date
    /// `year-month-day`, or `Date::min()` where the calendar cannot go back
    /// that far.
    pub fn date_since(&self, year: i32, month: u8, day: u8) -> (r: Date)
        ensures
            r == self.spec_date_since(year, month, day),
    {
        let days = self.as_days();
        let found = days_before(year, month, day, days);
        Date::from_found(found)
    }

    /// The date that lies the period before today, or `Date::min()` where the
    /// calendar cannot go back that far.
    pub fn to_date_since_today(&self) -> (r: Date)
        ensures
            exists|year: i32, month: u8, day: u8|
                1 <= month <= 12 && 1 <= day <= 31 && r == #[trigger] self.spec_date_since(
                    year,
                    month,
                    day,
                ),
    {
        let (year, month, day) = local_calendar_date();
        self.date_since(year, month, day)
    }

    /// The period that `s` writes as `[n] unit`: `n` is an unsigned number
    /// (one where it is left out) and the unit one of `day`, `days`, `week`,
    /// `weeks`, `month`, `months`, `year`, `years`.
    pub open spec fn spec_parse(s: Seq<char>) -> Option<Period> {
        let (count, unit) = match split_first(s, ' ') {
            Some(p) => p,
            None => ("1"@, s),
        };
        match parse_unsigned(count, u32::MAX as nat) {
            Some(n) => if unit == "days"@ || unit == "day"@ {
                Some(Period::Days(n as u32))
            } else if unit == "weeks"@ || unit == "week"@ {
                Some(Period::Weeks(n as u32))
            } else if unit == "months"@ || unit == "month"@ {
                Some(Period::Months(n as u32))
            } else if unit == "years"@ || unit == "year"@ {
                Some(Period::Years(n as u32))
            } else {
                None
            },
            None => None,
        }
    }

    /// Reads a period written as `[n] unit`.
    pub fn parse(value: &str) -> (r: Result<Period, GlobalError>)
        ensures
            Period::spec_parse(value@) matches Some(p) ==> r == Ok::<Period, GlobalError>(p),
            Period::spec_parse(value@) is None ==> (r matches Err(e) && is_parse_error(e, Syntax::Period, value@)),
    {
        let (count_str, period_str) = match split_once(value, ' ') {
            Some(p) => p,
            None => ("1", value),
        };
        let count = match parse_uint(count_str, u32::MAX) {
            Some(n) => n,
            None => return Err(GlobalError::parse(Syntax::Period, value)),
        };
        if str_eq(period_str, "days") || str_eq(period_str, "day") {
            Ok(Period::Days(count))
        } else if str_eq(period_str, "weeks") || str_eq(period_str, "week") {
            Ok(Period::Weeks(count))
        } else if str_eq(period_str, "months") || str_eq(period_str, "month") {
            Ok(Period::Months(count))
        } else if str_eq(period_str, "years") || str_eq(period_str, "year") {
            Ok(Period::Years(count))
        } else {
            Err(GlobalError::parse(Syntax::Period, value))
        }
    }
}

impl std::str::FromStr for Period {
    type Err = GlobalError;

    fn from_str(value: &str) -> (r: Result<Self, GlobalError>)
        ensures
            Period::spec_parse(value@) matches Some(x) ==> r == Ok::<Period, GlobalError>(x),
            Period::spec_parse(value@) is None ==> (r matches Err(e) && is_parse_error(e, Syntax::Period, value@)),
    {
        Period::parse(value)
    }
}

/// A calendar date.
#[derive(Debug, Clone, Copy, PartialEq, Eq, Structural, PartialOrd, Ord, Hash)]
pub struct Date {
    pub year: u16,
    pub month: u8,
    pub day: u8,
}

/// Bytes of an encoded date: the year in little-endian order, the month, the day.
pub const DATE_SIZE: usize = 4;

/// Bytes of an encoded time: the hours, the minutes.
pub const TIME_SIZE: usize = 2;

impl Date {
    /// A number that orders dates as the calendar does.
    pub open spec fn rank(self) -> int {
        self.year * 65536 + self.month * 256 + self.day
    }

    /// The encoding of the date.
    pub open spec fn spec_bytes(self) -> Seq<u8> {
        spec_u16_to_le_bytes(self.year) + seq![self.month, self.day]
    }

    /// The date that the bytes encode.
    pub open spec fn spec_from_bytes(b: Seq<u8>) -> Date {
        Date { year: spec_u16_from_le_bytes(b.subrange(0, 2)), month: b[2], day: b[3] }
    }

    /// The smallest date.
    pub fn min() -> (r: Self)
        ensures
            r == (Date { year: 0, month: 0, day: 0 }),
    {
        Date { year: 0, month: 0, day: 0 }
    }

    /// The largest date that the listing filters use.
    pub fn max() -> (r: Self)
        ensures
            r == (Date { year: u16::MAX, month: 12, day: 31 }),
    {
        Date { year: u16::MAX, month: 12, day: 31 }
    }

    /// A date from a calendar year, month and day; a year that does not fit
    /// the record becomes year zero.
    pub fn from_calendar(year: i32, month: u8, day: u8) -> (r: Self)
        ensures
            r.year == (if 0 <= year <= u16::MAX { year } else { 0 }),
            r.month == month,
            r.day == day,
    {
        let year: u16 = if 0 <= year && year <= u16::MAX as i32 {
            year as u16
        } else {
            0
        };
        Date { year, month, day }
    }

    /// The date that a calendar lookup found, or the smallest date where it
    /// found none.
    pub open spec fn spec_from_found(found: Option<(i32, u8, u8)>) -> Date {
        match found {
            Some((year, month, day)) => Date {
                year: if 0 <= year <= u16::MAX {
                    year as u16
                } else {
                    0
                },
                month,
                day,
            },
            None => Date { year: 0, month: 0, day: 0 },
        }
    }

    /// The date that a calendar lookup found, or `Date::min()` where it found
    /// none.
    pub fn from_found(found: Option<(i32, u8, u8)>) -> (r: Self)
        ensures
            r == Date::spec_from_found(found),
    {
        match found {
            Some((year, month, day)) => Date::from_calendar(year, month, day),
            None => Date::min(),
        }
    }

    /// Today's date in local time, or in UTC where the local offset is unknown.
    pub fn today() -> (r: Self)
        ensures
            1 <= r.month <= 12,
            1 <= r.day <= 31,
    {
        let (year, month, day) = local_calendar_date();
        Date::from_calendar(year, month, day)
    }

    /// The date written `yyyy-mm-dd`, each part zero-padded.
    pub open spec fn spec_text(self) -> Seq<char> {
        zero_padded(self.year as nat, 4) + "-"@ + zero_padded(self.month as nat, 2) + "-"@
            + zero_padded(self.day as nat, 2)
    }

    /// Appends the date written `yyyy-mm-dd`.
    pub fn push_text(&self, out: &mut String)
        ensures
            final(out)@ == old(out)@ + self.spec_text(),
    {
        push_zero_padded(out, self.year as u32, 4);
        out.append("-");
        push_zero_padded(out, self.month as u32, 2);
        out.append("-");
        push_zero_padded(out, self.day as u32, 2);
        assert(out@ =~= old(out)@ + self.spec_text());
    }

    /// The date written `yyyy-mm-dd`.
    pub fn to_text(&self) -> (r: String)
        ensures
            r@ == self.spec_text(),
    {
        let mut out = String::new();
        self.push_text(&mut out);
        assert(out@ =~= self.spec_text());
        out
    }

    /// Whether the date comes strictly before `other`.
    pub fn is_before(&self, other: &Date) -> (r: bool)
        ensures
            r == (self.rank() < other.rank()),
    {
        self.year < other.year || (self.year == other.year && (self.month < other.month || (
        self.month == other.month && self.day < other.day)))
    }

    pub fn to_le_bytes(&self) -> (r: [u8; 4])
        ensures
            r@ == self.spec_bytes(),
    {
        let year = u16_to_le_bytes(self.year);
        let r = [year[0], year[1], self.month, self.day];
        assert(r@ =~= self.spec_bytes());
        r
    }

    /// The date that `s` writes as `yyyy-mm-dd`: three unsigned numbers
    /// that fit the year, the month and the day, with no range check beyond.
    pub open spec fn spec_parse(s: Seq<char>) -> Option<Date> {
        match split_first(s, '-') {
            Some((y, rest)) => match split_first(rest, '-') {
                Some((m, d)) => match (
                    parse_unsigned(y, u16::MAX as nat),
                    parse_unsigned(m, u8::MAX as nat),
                    parse_unsigned(d, u8::MAX as nat),
                ) {
                    (Some(year), Some(month), Some(day)) => Some(
                        Date { year: year as u16, month: month as u8, day: day as u8 },
                    ),
                    _ => None,
                },
                None => None,
            },
            None => None,
        }
    }

    /// Reads a date written as `yyyy-mm-dd`.
    pub fn parse(value: &str) -> (r: Result<Date, GlobalError>)
        ensures
            Date::spec_parse(value@) matches Some(d) ==> r == Ok::<Date, GlobalError>(d),
            Date::spec_parse(value@) is None ==> (r matches Err(e) && is_parse_error(e, Syntax::Date, value@)),
    {
        let (year_str, rest) = match split_once(value, '-') {
            Some(p) => p,
            None => return Err(GlobalError::parse(Syntax::Date, value)),
        };
        let (month_str, day_str) = match split_once(rest, '-') {
            Some(p) => p,
            None => return Err(GlobalError::parse(Syntax::Date, value)),
        };
        match (
            parse_uint(year_str, u16::MAX as u32),
            parse_uint(month_str, u8::MAX as u32),
            parse_uint(day_str, u8::MAX as u32),
        ) {
            (Some(year), Some(month), Some(day)) => Ok(
                Date { year: year as u16, month: month as u8, day: day as u8 },
            ),
            _ => Err(GlobalError::parse(Syntax::Date, value)),
        }
    }

    /// Decodes a date from exactly four bytes.
    pub fn try_from_bytes(buffer: &[u8]) -> (r: Result<Self, GlobalError>)
        ensures
            buffer@.len() == DATE_SIZE ==> r == Ok::<Date, GlobalError>(
                Date::spec_from_bytes(buffer@),
            ),
            buffer@.len() != DATE_SIZE ==> r == Err::<Date, GlobalError>(
                GlobalError::WrongByteLen {
                    record: Record::Date,
                    actual: buffer@.len() as usize,
                    expected: DATE_SIZE,
                },
            ),
    {
        if buffer.len() != DATE_SIZE {
            return Err(GlobalError::wrong_byte_len(Record::Date, buffer.len(), DATE_SIZE));
        }
        let year = u16_from_le_bytes(slice_subrange(buffer, 0, 2));
        Ok(Date { year, month: buffer[2], day: buffer[3] })
    }
}

/// Decoding an encoded date gives the date back.
pub proof fn lemma_date_round_trip(d: Date)
    ensures
        d.spec_bytes().len() == DATE_SIZE,
        Date::spec_from_bytes(d.spec_bytes()) == d,
{
    lemma_auto_spec_u16_to_from_le_bytes();
    assert(d.spec_bytes().subrange(0, 2) =~= spec_u16_to_le_bytes(d.year));
}

/// A time of day, in hours and minutes.
#[derive(Debug, Clone, Copy, PartialEq, Eq, Structural, PartialOrd, Ord, Hash)]
pub struct Time {
    pub hours: u8,
    pub minutes: u8,
}

impl Time {
    /// A number that orders times as the clock does.
    pub open spec fn rank(self) -> int {
        self.hours * 256 + self.minutes
    }

    /// Whether this is the value that stands for an absent time.
    pub open spec fn is_none(self) -> bool {
        self.hours == 0xFF && self.minutes == 0xFF
    }

    /// The current time in local time, or in UTC where the local offset is unknown.
    pub fn now() -> (r: Self)
        ensures
            r.hours < 24,
            r.minutes < 60,
    {
        let (hours, minutes) = local_clock_time();
        Time { hours, minutes }
    }

    /// The time whose encoding stands for an absent time.
    pub fn none() -> (r: Self)
        ensures
            r == (Time { hours: 0xFF, minutes: 0xFF }),
    {
        Time { hours: 0xFF, minutes: 0xFF }
    }

    /// The time written `h:mm`: the hours without padding, the minutes on
    /// two digits.
    pub open spec fn spec_text(self) -> Seq<char> {
        decimal(self.hours as nat) + ":"@ + zero_padded(self.minutes as nat, 2)
    }

    /// Appends the time written `h:mm`.
    pub fn push_text(&self, out: &mut String)
        ensures
            final(out)@ == old(out)@ + self.spec_text(),
    {
        push_decimal(out, self.hours as u32);
        out.append(":");
        push_zero_padded(out, self.minutes as u32, 2);
        assert(out@ =~= old(out)@ + self.spec_text());
    }

    /// The time written `h:mm`.
    pub fn to_text(&self) -> (r: String)
        ensures
            r@ == self.spec_text(),
    {
        let mut out = String::new();
        self.push_text(&mut out);
        assert(out@ =~= self.spec_text());
        out
    }

    /// Whether the time comes strictly before `other`.
    pub fn is_before(&self, other: &Time) -> (r: bool)
        ensures
            r == (self.rank() < other.rank()),
    {
        self.hours < other.hours || (self.hours == other.hours && self.minutes < other.minutes)
    }

    pub fn to_le_bytes(&self) -> (r: [u8; 2])
        ensures
            r@ == seq![self.hours, self.minutes],
    {
        let r = [self.hours, self.minutes];
        assert(r@ =~= seq![self.hours, self.minutes]);
        r
    }

    /// The time that `s` writes as `hh:mm`: two unsigned numbers that fit a
    /// byte each, with no range check beyond.
    pub open spec fn spec_parse(s: Seq<char>) -> Option<Time> {
        match split_first(s, ':') {
            Some((h, m)) => match (
                parse_unsigned(h, u8::MAX as nat),
                parse_unsigned(m, u8::MAX as nat),
            ) {
                (Some(hours), Some(minutes)) => Some(
                    Time { hours: hours as u8, minutes: minutes as u8 },
                ),
                _ => None,
            },
            None => None,
        }
    }

    /// Reads a time written as `hh:mm`.
    pub fn parse(value: &str) -> (r: Result<Time, GlobalError>)
        ensures
            Time::spec_parse(value@) matches Some(t) ==> r == Ok::<Time, GlobalError>(t),
            Time::spec_parse(value@) is None ==> (r matches Err(e) && is_parse_error(e, Syntax::Time, value@)),
    {
        let (hours_str, minutes_str) = match split_once(value, ':') {
            Some(p) => p,
            None => return Err(GlobalError::parse(Syntax::Time, value)),
        };
        match (parse_uint(hours_str, u8::MAX as u32), parse_uint(minutes_str, u8::MAX as u32)) {
            (Some(hours), Some(minutes)) => Ok(Time { hours: hours as u8, minutes: minutes as u8 }),
            _ => Err(GlobalError::parse(Syntax::Time, value)),
        }
    }

    /// Decodes a time from exactly two bytes.
    pub fn try_from_bytes(buffer: &[u8]) -> (r: Result<Self, GlobalError>)
        ensures
            buffer@.len() == TIME_SIZE ==> r == Ok::<Time, GlobalError>(
                Time { hours: buffer@[0], minutes: buffer@[1] },
            ),
            buffer@.len() != TIME_SIZE ==> r == Err::<Time, GlobalError>(
                GlobalError::WrongByteLen {
                    record: Record::Time,
                    actual: buffer@.len() as usize,
                    expected: TIME_SIZE,
                },
            ),
    {
        if buffer.len() != TIME_SIZE {
            return Err(GlobalError::wrong_byte_len(Record::Time, buffer.len(), TIME_SIZE));
        }
        Ok(Time { hours: buffer[0], minutes: buffer[1] })
    }
}

impl Default for Time {
    /// The current time.
    fn default() -> (r: Self)
        ensures
            r.hours < 24,
            r.minutes < 60,
    {
        Time::now()
    }
}

impl std::str::FromStr for Date {
    type Err = GlobalError;

    fn from_str(value: &str) -> (r: Result<Self, GlobalError>)
        ensures
            Date::spec_parse(value@) matches Some(x) ==> r == Ok::<Date, GlobalError>(x),
            Date::spec_parse(value@) is None ==> (r matches Err(e) && is_parse_error(e, Syntax::Date, value@)),
    {
        Date::parse(value)
    }
}

impl std::str::FromStr for Time {
    type Err = GlobalError;

    fn from_str(value: &str) -> (r: Result<Self, GlobalError>)
        ensures
            Time::spec_parse(value@) matches Some(x) ==> r == Ok::<Time, GlobalError>(x),
            Time::spec_parse(value@) is None ==> (r matches Err(e) && is_parse_error(e, Syntax::Time, value@)),
    {
        Time::parse(value)
    }
}

/// Relies on time's `OffsetDateTime::now_local` (falling back to `now_utc`),
/// `date` and `to_calendar_date`: today's year, month (1 to 12) and day (1 to 31).
#[verifier::external_body]
fn local_calendar_date() -> (r: (i32, u8, u8))
    ensures
        1 <= r.1 <= 12,
        1 <= r.2 <= 31,
{
    let now = ::time::OffsetDateTime::now_local().unwrap_or(::time::OffsetDateTime::now_utc());
    let (year, month, day) = now.date().to_calendar_date();
    (year, u8::from(month), day)
}

/// Relies on time's `OffsetDateTime::now_local` (falling back to `now_utc`),
/// `time` and `Time::as_hms`: the hour (below 24) and minute (below 60) of now.
#[verifier::external_body]
fn local_clock_time() -> (r: (u8, u8))
    ensures
        r.0 < 24,
        r.1 < 60,
{
    let now = ::time::OffsetDateTime::now_local().unwrap_or(::time::OffsetDateTime::now_utc());
    let (hours, minutes, _) = now.time().as_hms();
    (hours, minutes)
}

/// What time's calendar arithmetic gives for the date `days` days before
/// `year-month-day`.
pub uninterp spec fn calendar_days_before(year: i32, month: u8, day: u8, days: u64) -> Option<
    (i32, u8, u8),
>;

/// Relies on time's `Month::try_from`, `Date::from_calendar_date`,
/// `Date::checked_sub` with `Duration::days`, and `to_calendar_date`: the
/// calendar date `days` days before `year-month-day`, or `None` where that
/// date does not exist or the result lies outside the dates that time
/// represents. The result depends on the arguments alone; a month is 1 to 12
/// and a day 1 to 31. `Duration::days` panics past `i64::MAX / 86400` days,
/// which `requires` leaves out.
#[verifier::external_body]
fn days_before(year: i32, month: u8, day: u8, days: u64) -> (r: Option<(i32, u8, u8)>)
    requires
        days <= 106751991167300,
    ensures
        r == calendar_days_before(year, month, day, days),
        r matches Some(d) ==> 1 <= d.1 <= 12 && 1 <= d.2 <= 31,
{
    let month = ::time::Month::try_from(month).ok()?;
    let date = ::time::Date::from_calendar_date(year, month, day).ok()?;
    let before = date.checked_sub(::time::Duration::days(days as i64))?;
    let (year, month, day) = before.to_calendar_date();
    Some((year, u8::from(month), day))
}

} // verus!
