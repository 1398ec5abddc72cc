//! Calendar dates, clock times, and what chrono and chrono-tz compute on them.

use chrono::{Datelike, NaiveDate, NaiveTime, TimeZone, Timelike, Utc};
use vstd::prelude::*;

use crate::text::{decimal_text, digits_value, law_decimal};

verus! {

/// A day of the proleptic Gregorian calendar.
#[derive(Clone, Copy, Debug, PartialEq, Eq, Structural)]
pub struct Date {
    pub year: i32,
    pub month: u32,
    pub day: u32,
}

/// A time of day. A leap second has `nanosecond` at one thousand million or above.
#[derive(Clone, Copy, Debug, PartialEq, Eq, Structural)]
pub struct Time {
    pub hour: u32,
    pub minute: u32,
    pub second: u32,
    pub nanosecond: u32,
}

/// A day and a time of day, in local time or in UTC as the place that holds it says.
#[derive(Clone, Copy, Debug, PartialEq, Eq, Structural)]
pub struct DateTime {
    pub date: Date,
    pub time: Time,
}

/// A day of the week.
#[derive(Clone, Copy, Debug, PartialEq, Eq, Structural)]
pub enum Weekday {
    Mon,
    Tue,
    Wed,
    Thu,
    Fri,
    Sat,
    Sun,
}

/// Whether February has 29 days in a year.
pub open spec fn is_leap(year: int) -> bool {
    year % 4 == 0 && (year % 100 != 0 || year % 400 == 0)
}

/// The number of days of a month.
pub open spec fn month_days(year: int, month: int) -> int {
    if month == 2 {
        if is_leap(year) {
            29
        } else {
            28
        }
    } else if month == 4 || month == 6 || month == 9 || month == 11 {
        30
    } else {
        31
    }
}

/// Whether the three numbers name a day that the calendar has, in the years that are held.
pub open spec fn is_date(year: int, month: int, day: int) -> bool {
    &&& -262143 <= year <= 262142
    &&& 1 <= month <= 12
    &&& 1 <= day <= month_days(year, month)
}

/// The number of days from the start of the year up to the start of a month.
pub open spec fn days_before_month(year: int, month: int) -> int
    decreases month,
{
    if month <= 1 {
        0
    } else {
        days_before_month(year, month - 1) + month_days(year, month - 1)
    }
}

impl Date {
    /// Whether the date is a day that the calendar has.
    pub open spec fn valid(self) -> bool {
        is_date(self.year as int, self.month as int, self.day as int)
    }

    /// The number of days since the last day of the year before year one.
    pub open spec fn day_number(self) -> int {
        let years = self.year - 1;
        365 * years + years / 4 - years / 100 + years / 400 + days_before_month(
            self.year as int,
            self.month as int,
        ) + self.day
    }

    /// The day of the week; the first day of year one is a Monday.
    pub open spec fn day_of_week(self) -> Weekday {
        let n = (self.day_number() - 1) % 7;
        if n == 0 {
            Weekday::Mon
        } else if n == 1 {
            Weekday::Tue
        } else if n == 2 {
            Weekday::Wed
        } else if n == 3 {
            Weekday::Thu
        } else if n == 4 {
            Weekday::Fri
        } else if n == 5 {
            Weekday::Sat
        } else {
            Weekday::Sun
        }
    }

    /// The day after, unless this is the last day that is held.
    pub open spec fn successor(self) -> Option<Date> {
        if self.day < month_days(self.year as int, self.month as int) {
            Some(Date { day: (self.day + 1) as u32, ..self })
        } else if self.month < 12 {
            Some(Date { month: (self.month + 1) as u32, day: 1, ..self })
        } else if self.year < 262142 {
            Some(Date { year: (self.year + 1) as i32, month: 1, day: 1 })
        } else {
            None
        }
    }

    /// Whether the date is `other` or a later day.
    pub open spec fn from_on(self, other: Date) -> bool {
        ||| self.year > other.year
        ||| self.year == other.year && self.month > other.month
        ||| self.year == other.year && self.month == other.month && self.day >= other.day
    }
}

impl Time {
    /// Whether each part is in its range.
    pub open spec fn valid(self) -> bool {
        self.hour < 24 && self.minute < 60 && self.second < 60 && self.nanosecond < 2_000_000_000
    }
}

impl DateTime {
    /// Whether both parts are valid.
    pub open spec fn valid(self) -> bool {
        self.date.valid() && self.time.valid()
    }
}

/// A number in decimal, with zeros in front up to `width` characters.
pub open spec fn padded(n: nat, width: nat) -> Seq<char> {
    let digits = decimal_text(n);
    if digits.len() >= width {
        digits
    } else {
        Seq::new((width - digits.len()) as nat, |i: int| '0') + digits
    }
}

/// A year as at least four digits, with a sign outside the years 0 to 9999.
pub open spec fn year_text(year: int) -> Seq<char> {
    if 0 <= year <= 9999 {
        padded(year as nat, 4)
    } else if year > 0 {
        seq!['+'] + padded(year as nat, 4)
    } else {
        seq!['-'] + padded((-year) as nat, 4)
    }
}

/// A date as year, month and day without separators.
pub open spec fn compact_date(date: Date) -> Seq<char> {
    year_text(date.year as int) + padded(date.month as nat, 2) + padded(date.day as nat, 2)
}

/// A date as year, month and day with hyphens between.
pub open spec fn written_date(date: Date) -> Seq<char> {
    year_text(date.year as int) + seq!['-'] + padded(date.month as nat, 2) + seq!['-'] + padded(
        date.day as nat,
        2,
    )
}

/// A moment as date, the letter T, hour, minute and second, and the letter Z.
pub open spec fn compact_stamp(moment: DateTime) -> Seq<char> {
    compact_date(moment.date) + seq!['T'] + padded(moment.time.hour as nat, 2) + padded(
        moment.time.minute as nat,
        2,
    ) + padded((moment.time.second + moment.time.nanosecond / 1_000_000_000) as nat, 2) + seq!['Z']
}

/// Year, month and day as digits with hyphens between.
pub open spec fn hyphened(year: nat, month: nat, day: nat) -> Seq<char> {
    padded(year, 4) + seq!['-'] + padded(month, 2) + seq!['-'] + padded(day, 2)
}

/// Hour and minute as digits with a colon between.
pub open spec fn coloned(hour: nat, minute: nat) -> Seq<char> {
    padded(hour, 2) + seq![':'] + padded(minute, 2)
}

/// The whole minute of the day, where there is such a minute.
pub open spec fn minute_of_day(hour: int, minute: int) -> Option<Time> {
    if 0 <= hour < 24 && 0 <= minute < 60 {
        Some(Time { hour: hour as u32, minute: minute as u32, second: 0, nanosecond: 0 })
    } else {
        None
    }
}

/// The first day of the term.
pub open spec fn term_start() -> Date {
    Date { year: 2026, month: 8, day: 1 }
}

/// The last day of the term.
pub open spec fn term_end() -> Date {
    Date { year: 2026, month: 12, day: 31 }
}

/// Whether a date lies in the Fall 2026 term.
pub open spec fn in_term(date: Date) -> bool {
    date.from_on(term_start()) && term_end().from_on(date)
}

/// Whether a moment in Los Angeles in the term has daylight saving time: the clocks go back on
/// the first of November at two o'clock.
pub open spec fn has_daylight_time(local: DateTime) -> bool {
    local.date.month <= 10 || (local.date.month == 11 && local.date.day == 1 && local.time.hour < 1)
}

/// A moment some hours later, less than a day.
pub open spec fn hours_later(moment: DateTime, hours: int) -> DateTime {
    let hour = moment.time.hour + hours;
    if hour < 24 {
        DateTime { date: moment.date, time: Time { hour: hour as u32, ..moment.time } }
    } else {
        DateTime {
            date: moment.date.successor()->0,
            time: Time { hour: (hour - 24) as u32, ..moment.time },
        }
    }
}

/// The UTC moment of a local time in Los Angeles in the term. The hour that the clocks repeat
/// has no single one.
pub open spec fn term_utc(local: DateTime) -> Option<DateTime> {
    if local.date.month == 11 && local.date.day == 1 && local.time.hour == 1 {
        None
    } else if has_daylight_time(local) {
        Some(hours_later(local, 7))
    } else {
        Some(hours_later(local, 8))
    }
}

/// Calls chrono's `NaiveDate::from_ymd_opt`: a date where the calendar has the day and the year
/// is in chrono's range, nothing otherwise.
#[verifier::external_body]
pub(crate) fn date_from_ymd(year: i32, month: u32, day: u32) -> (r: Option<Date>)
    ensures
        r == if is_date(year as int, month as int, day as int) {
            Some(Date { year, month, day })
        } else {
            None
        },
{
    NaiveDate::from_ymd_opt(year, month, day).map(|d| Date {
        year: d.year(),
        month: d.month(),
        day: d.day(),
    })
}

/// Calls chrono's `Datelike::weekday`, the Gregorian day of the week.
#[verifier::external_body]
pub(crate) fn weekday_of(date: Date) -> (r: Weekday)
    requires
        date.valid(),
    ensures
        r == date.day_of_week(),
{
    let date = NaiveDate::from_ymd_opt(date.year, date.month, date.day).expect("valid date");
    match date.weekday() {
        chrono::Weekday::Mon => Weekday::Mon,
        chrono::Weekday::Tue => Weekday::Tue,
        chrono::Weekday::Wed => Weekday::Wed,
        chrono::Weekday::Thu => Weekday::Thu,
        chrono::Weekday::Fri => Weekday::Fri,
        chrono::Weekday::Sat => Weekday::Sat,
        chrono::Weekday::Sun => Weekday::Sun,
    }
}

/// Calls chrono's `NaiveDate::succ_opt`: the next day, or nothing after the last one.
#[verifier::external_body]
pub(crate) fn next_day(date: Date) -> (r: Option<Date>)
    requires
        date.valid(),
    ensures
        r == date.successor(),
{
    let date = NaiveDate::from_ymd_opt(date.year, date.month, date.day).expect("valid date");
    date.succ_opt().map(|d| Date { year: d.year(), month: d.month(), day: d.day() })
}

/// What chrono's `NaiveDate::parse_from_str` reads from a text in a format.
pub uninterp spec fn parsed_date(text: Seq<char>, format: Seq<char>) -> Option<Date>;

/// Calls chrono's `NaiveDate::parse_from_str`. Stated of it: the result depends on the text and
/// the format alone, it is a day that the calendar has, and a text of four digits, two digits and
/// two digits with hyphens between is read in the format `%Y-%m-%d` as that year, month and day.
/// What it makes of other texts (signs, blanks, missing zeros) is left unsaid.
#[verifier::external_body]
pub(crate) fn parse_date(text: &str, format: &str) -> (r: Option<Date>)
    ensures
        r == parsed_date(text@, format@),
        r matches Some(date) ==> date.valid(),
        format@ == "%Y-%m-%d"@ ==> forall|year: nat, month: nat, day: nat|
            year <= 9999 && month <= 99 && day <= 99 && text@ == #[trigger] hyphened(
                year,
                month,
                day,
            ) ==> r == if is_date(year as int, month as int, day as int) {
                Some(Date { year: year as i32, month: month as u32, day: day as u32 })
            } else {
                None::<Date>
            },
{
    NaiveDate::parse_from_str(text, format).ok().map(|d| Date {
        year: d.year(),
        month: d.month(),
        day: d.day(),
    })
}

/// What chrono's `NaiveTime::parse_from_str` reads from a text in a format.
pub uninterp spec fn parsed_time(text: Seq<char>, format: Seq<char>) -> Option<Time>;

/// Calls chrono's `NaiveTime::parse_from_str`. Stated of it: the result depends on the text and
/// the format alone, its parts are in range, and a text of two digits, a colon and two digits is
/// read in the format `%H:%M` as that hour and minute. Other texts are left unsaid.
#[verifier::external_body]
pub(crate) fn parse_time(text: &str, format: &str) -> (r: Option<Time>)
    ensures
        r == parsed_time(text@, format@),
        r matches Some(time) ==> time.valid(),
        format@ == "%H:%M"@ ==> forall|hour: nat, minute: nat|
            hour <= 99 && minute <= 99 && text@ == #[trigger] coloned(hour, minute) ==> r
                == minute_of_day(hour as int, minute as int),
{
    NaiveTime::parse_from_str(text, format).ok().map(|t| Time {
        hour: t.hour(),
        minute: t.minute(),
        second: t.second(),
        nanosecond: t.nanosecond(),
    })
}

/// Calls chrono's `NaiveDate::format`. In the format `%Y%m%d` it gives the year in at least four
/// digits, signed outside 0 to 9999, and the month and the day in two digits each; in the format
/// `%Y-%m-%d` it gives the same with hyphens between.
#[verifier::external_body]
pub(crate) fn format_date(date: Date, format: &str) -> (r: String)
    requires
        date.valid(),
        format@ == "%Y%m%d"@ || format@ == "%Y-%m-%d"@,
    ensures
        format@ == "%Y%m%d"@ ==> r@ == compact_date(date),
        format@ == "%Y-%m-%d"@ ==> r@ == written_date(date),
{
    let date = NaiveDate::from_ymd_opt(date.year, date.month, date.day).expect("valid date");
    date.format(format).to_string()
}

/// Calls chrono's `DateTime::<Utc>::format`. In the format `%Y%m%dT%H%M%SZ` it gives the date as
/// `format_date` does, then hour, minute and second in two digits each, a leap second as the
/// second after.
#[verifier::external_body]
pub(crate) fn format_stamp(moment: DateTime, format: &str) -> (r: String)
    requires
        moment.valid(),
        format@ == "%Y%m%dT%H%M%SZ"@,
    ensures
        r@ == compact_stamp(moment),
{
    let (d, t) = (moment.date, moment.time);
    let utc = NaiveDate::from_ymd_opt(d.year, d.month, d.day).expect("valid date")
        .and_hms_opt(t.hour, t.minute, t.second).expect("valid time")
        .with_nanosecond(t.nanosecond).expect("valid nanosecond").and_utc();
    utc.format(format).to_string()
}

/// The UTC moment that chrono-tz gives for a local time in Los Angeles, where there is exactly
/// one.
pub uninterp spec fn los_angeles_utc(local: DateTime) -> Option<DateTime>;

/// Calls chrono-tz's `Los_Angeles.from_local_datetime`, keeps a single result, and turns it to
/// UTC. Stated of it: the result depends on the local time alone, it is a valid moment, and in
/// the Fall 2026 term it is seven hours on before the clocks go back and eight hours on after, and
/// nothing in the hour that they repeat. Other years are left unsaid.
#[verifier::external_body]
pub(crate) fn los_angeles_to_utc(local: DateTime) -> (r: Option<DateTime>)
    requires
        local.valid(),
    ensures
        r == los_angeles_utc(local),
        r matches Some(moment) ==> moment.valid(),
        in_term(local.date) ==> r == term_utc(local),
{
    let (d, t) = (local.date, local.time);
    let naive = NaiveDate::from_ymd_opt(d.year, d.month, d.day).expect("valid date")
        .and_hms_opt(t.hour, t.minute, t.second).expect("valid time")
        .with_nanosecond(t.nanosecond).expect("valid nanosecond");
    let zone = chrono_tz::America::Los_Angeles;
    zone.from_local_datetime(&naive).single().map(|m| m.with_timezone(&Utc)).map(|m| DateTime {
        date: Date { year: m.year(), month: m.month(), day: m.day() },
        time: Time {
            hour: m.hour(), minute: m.minute(), second: m.second(), nanosecond: m.nanosecond(),
        },
    })
}

/// Tells whether a date is `other` or a later day.
fn on_or_after(date: Date, other: Date) -> (r: bool)
    ensures
        r == date.from_on(other),
{
    date.year > other.year || (date.year == other.year && (date.month > other.month || (date.month
        == other.month && date.day >= other.day)))
}

/// Tells whether a date lies in the term.
pub fn is_in_term(date: Date) -> (r: bool)
    ensures
        r == in_term(date),
{
    on_or_after(date, Date { year: 2026, month: 8, day: 1 }) && on_or_after(
        Date { year: 2026, month: 12, day: 31 },
        date,
    )
}

/// A whole minute of the day.
pub fn time_from_minute(hour: u32, minute: u32) -> (r: Option<Time>)
    ensures
        r == minute_of_day(hour as int, minute as int),
{
    if hour < 24 && minute < 60 {
        Some(Time { hour, minute, second: 0, nanosecond: 0 })
    } else {
        None
    }
}

/// A whole minute of the day has its hour and its minute and nothing beyond, and there are minutes
/// from midnight up to one before the next.
pub proof fn law_minute_of_day(hour: int, minute: int, time: Time)
    ensures
        minute_of_day(hour, minute) == Some(time) <==> {
            &&& time.hour == hour
            &&& time.minute == minute
            &&& time.second == 0
            &&& time.nanosecond == 0
            &&& 0 <= hour <= 23
            &&& 0 <= minute <= 59
        },
        minute_of_day(hour, minute) is None <==> !(0 <= hour <= 23 && 0 <= minute <= 59),
{
}

/// The days of the term are those of the last five months of its year.
pub proof fn law_days_of_term(date: Date)
    requires
        date.valid(),
    ensures
        in_term(date) <==> date.year == 2026 && date.month >= 8,
{
}

/// The day after a day is a day that the calendar has, later than it, with no day between.
pub proof fn law_next_day(date: Date)
    requires
        date.valid(),
    ensures
        date.successor() matches Some(next) ==> {
            &&& next.valid()
            &&& next.from_on(date) && !date.from_on(next)
            &&& forall|other: Date|
                other.valid() && #[trigger] other.from_on(date) && other != date ==> other.from_on(
                    next,
                )
        },
        date.successor() is None <==> date == (Date { year: 262142, month: 12, day: 31 }),
{
}

/// Zeros in front of digits do not change the number that they name.
proof fn lemma_zeros_in_front(zeros: Seq<char>, text: Seq<char>)
    requires
        forall|i: int| 0 <= i < zeros.len() ==> #[trigger] zeros[i] == '0',
    ensures
        digits_value(zeros + text) == digits_value(text),
    decreases zeros.len() + text.len(),
{
    if text.len() > 0 {
        lemma_zeros_in_front(zeros, text.drop_last());
        assert((zeros + text).drop_last() =~= zeros + text.drop_last());
    } else {
        assert(zeros + text =~= zeros);
        if zeros.len() > 0 {
            let fewer = zeros.drop_last();
            lemma_zeros_in_front(fewer, text);
            assert(fewer + text =~= fewer);
        }
    }
}

/// A number that is written with zeros in front is made of digits that name it. It has the width
/// that is asked for, or is longer and then begins with another digit.
pub proof fn law_padded(n: nat, width: nat)
    requires
        width > 0,
    ensures
        digits_value(padded(n, width)) == Some(n),
        padded(n, width).len() >= width,
        padded(n, width).len() > width ==> padded(n, width)[0] != '0',
        width >= 2 && n < 100 ==> padded(n, width).len() == width,
        width >= 4 && n < 10_000 ==> padded(n, width).len() == width,
{
    let digits = decimal_text(n);
    law_decimal(n);
    reveal_with_fuel(decimal_text, 4);
    if digits.len() < width {
        let zeros = Seq::new((width - digits.len()) as nat, |i: int| '0');
        lemma_zeros_in_front(zeros, digits);
    }
}

/// A year of up to four digits is written with four. Any other year has its sign in front.
pub proof fn law_written_year(year: int)
    ensures
        0 <= year <= 9999 ==> year_text(year).len() == 4 && digits_value(year_text(year)) == Some(
            year as nat,
        ),
        year > 9999 ==> year_text(year)[0] == '+' && digits_value(year_text(year).skip(1)) == Some(
            year as nat,
        ),
        year < 0 ==> year_text(year)[0] == '-' && digits_value(year_text(year).skip(1)) == Some(
            (-year) as nat,
        ) && year_text(year).len() >= 5,
{
    if year >= 0 {
        law_padded(year as nat, 4);
        assert((seq!['+'] + padded(year as nat, 4)).skip(1) =~= padded(year as nat, 4));
    } else {
        law_padded((-year) as nat, 4);
        assert((seq!['-'] + padded((-year) as nat, 4)).skip(1) =~= padded((-year) as nat, 4));
    }
}

/// A written day holds its year, its month and its day, in this order and at fixed places, with
/// hyphens between them or without.
pub proof fn law_written_days(date: Date)
    requires
        date.valid(),
        0 <= date.year <= 9999,
    ensures
        written_date(date).len() == 10,
        written_date(date)[4] == '-',
        written_date(date)[7] == '-',
        digits_value(written_date(date).subrange(0, 4)) == Some(date.year as nat),
        digits_value(written_date(date).subrange(5, 7)) == Some(date.month as nat),
        digits_value(written_date(date).subrange(8, 10)) == Some(date.day as nat),
        hyphened(date.year as nat, date.month as nat, date.day as nat) == written_date(date),
        compact_date(date).len() == 8,
        digits_value(compact_date(date).subrange(0, 4)) == Some(date.year as nat),
        digits_value(compact_date(date).subrange(4, 6)) == Some(date.month as nat),
        digits_value(compact_date(date).subrange(6, 8)) == Some(date.day as nat),
{
    let year = year_text(date.year as int);
    let month = padded(date.month as nat, 2);
    let day = padded(date.day as nat, 2);
    law_padded(date.year as nat, 4);
    law_padded(date.month as nat, 2);
    law_padded(date.day as nat, 2);
    let written = written_date(date);
    assert(written.subrange(0, 4) =~= year);
    assert(written.subrange(5, 7) =~= month);
    assert(written.subrange(8, 10) =~= day);
    let compact = compact_date(date);
    assert(compact.subrange(0, 4) =~= year);
    assert(compact.subrange(4, 6) =~= month);
    assert(compact.subrange(6, 8) =~= day);
}

/// A written time of day holds the hour and the minute, each with two digits and a colon between.
pub proof fn law_written_times(hour: nat, minute: nat)
    requires
        hour < 100,
        minute < 100,
    ensures
        coloned(hour, minute).len() == 5,
        coloned(hour, minute)[2] == ':',
        digits_value(coloned(hour, minute).subrange(0, 2)) == Some(hour),
        digits_value(coloned(hour, minute).subrange(3, 5)) == Some(minute),
{
    law_padded(hour, 2);
    law_padded(minute, 2);
    assert(coloned(hour, minute).subrange(0, 2) =~= padded(hour, 2));
    assert(coloned(hour, minute).subrange(3, 5) =~= padded(minute, 2));
}

/// A stamp holds the day, then the hour, the minute and the second at fixed places. A leap second
/// counts as one more.
pub proof fn law_stamps(moment: DateTime)
    requires
        moment.valid(),
        0 <= moment.date.year <= 9999,
    ensures
        compact_stamp(moment).len() == 16,
        compact_stamp(moment).take(8) == compact_date(moment.date),
        compact_stamp(moment)[8] == 'T',
        digits_value(compact_stamp(moment).subrange(9, 11)) == Some(moment.time.hour as nat),
        digits_value(compact_stamp(moment).subrange(11, 13)) == Some(moment.time.minute as nat),
        moment.time.nanosecond < 1_000_000_000 ==> digits_value(
            compact_stamp(moment).subrange(13, 15),
        ) == Some(moment.time.second as nat),
        moment.time.nanosecond >= 1_000_000_000 ==> digits_value(
            compact_stamp(moment).subrange(13, 15),
        ) == Some((moment.time.second + 1) as nat),
        compact_stamp(moment)[15] == 'Z',
{
    let second = (moment.time.second + moment.time.nanosecond / 1_000_000_000) as nat;
    law_written_days(moment.date);
    law_padded(moment.time.hour as nat, 2);
    law_padded(moment.time.minute as nat, 2);
    law_padded(second, 2);
    let stamp = compact_stamp(moment);
    assert(stamp.take(8) =~= compact_date(moment.date));
    assert(stamp.subrange(9, 11) =~= padded(moment.time.hour as nat, 2));
    assert(stamp.subrange(11, 13) =~= padded(moment.time.minute as nat, 2));
    assert(stamp.subrange(13, 15) =~= padded(second, 2));
}

/// Long and short months take turns, but for July and August, which are both long. February has
/// a day more in every fourth year, but not at the turn of a century that four does not divide.
pub proof fn law_months(year: int, month: int)
    requires
        1 <= month <= 12,
    ensures
        month != 2 ==> month_days(year, month) == 30 + (month + month / 8) % 2,
        month == 2 ==> 28 <= month_days(year, month) <= 29,
        month == 2 && year % 4 != 0 ==> month_days(year, month) == 28,
        month == 2 && year % 100 == 0 ==> (month_days(year, month) == 29 <==> year % 400 == 0),
        month == 2 && year % 4 == 0 && year % 100 != 0 ==> month_days(year, month) == 29,
{
}

/// The number of a day is one more than that of the day before, also where a month or a year
/// begins.
pub proof fn law_days_are_numbered(date: Date)
    requires
        date.valid(),
    ensures
        date.successor() matches Some(next) ==> next.day_number() == date.day_number() + 1,
{
    if date.month == 12 {
        reveal_with_fuel(days_before_month, 13);
    }
}

/// The weekdays go round: the day after a Monday is a Tuesday, and so on. The first of August 2026
/// is a Saturday.
pub proof fn law_weekdays_go_round(date: Date)
    requires
        date.valid(),
    ensures
        date.successor() matches Some(next) ==> next.day_of_week() == match date.day_of_week() {
            Weekday::Mon => Weekday::Tue,
            Weekday::Tue => Weekday::Wed,
            Weekday::Wed => Weekday::Thu,
            Weekday::Thu => Weekday::Fri,
            Weekday::Fri => Weekday::Sat,
            Weekday::Sat => Weekday::Sun,
            Weekday::Sun => Weekday::Mon,
        },
        (Date { year: 2026, month: 8, day: 1 }).day_of_week() == Weekday::Sat,
{
    law_days_are_numbered(date);
    assert((Date { year: 2026, month: 8, day: 1 }).day_number() == 739829) by {
        reveal_with_fuel(days_before_month, 9);
    }
    if let Some(next) = date.successor() {
        let number = date.day_number();
        assert((next.day_number() - 1) % 7 == if (number - 1) % 7 == 6 {
            0int
        } else {
            (number - 1) % 7 + 1
        });
    }
}

/// In the term a local moment is seven hours behind UTC up to the end of daylight time, at the
/// second time that it is one o'clock on the first of November, and eight hours from there on. In
/// the hour that comes twice a moment is not told by its local time.
pub proof fn law_moments_of_term(local: DateTime)
    requires
        local.valid(),
        in_term(local.date),
    ensures
        term_utc(local) is None <==> local.date == (Date { year: 2026, month: 11, day: 1 })
            && local.time.hour == 1,
        term_utc(local) matches Some(utc) ==> {
            &&& utc.valid()
            &&& utc.time.minute == local.time.minute
            &&& utc.time.second == local.time.second
            &&& utc.time.nanosecond == local.time.nanosecond
            &&& (24 * utc.date.day_number() + utc.time.hour) - (24 * local.date.day_number()
                + local.time.hour) == if !local.date.from_on(
                Date { year: 2026, month: 11, day: 1 },
            ) || local.date == (Date { year: 2026, month: 11, day: 1 }) && local.time.hour == 0 {
                7int
            } else {
                8int
            }
        },
{
    law_days_are_numbered(local.date);
    law_next_day(local.date);
}

} // verus!
