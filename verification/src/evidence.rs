//! Dates, weekdays and times as schedule texts give them.

use vstd::prelude::*;

use crate::clock::{
    date_from_ymd, in_term, is_date, los_angeles_to_utc, los_angeles_utc, minute_of_day, term_utc,
    time_from_minute, weekday_of, Date, DateTime, Time, Weekday,
};
use crate::model::{
    check_view, failure, plain_failure, Deadline, Error, ErrorKind, ErrorView,
};
use crate::pattern::{
    all_groups, all_matches, captures, captures_all, fills, find, find_all, first_groups,
    first_match, group_views, has_shape, is_match, match_views, DATE_PARTS, DUE_MARKER,
    MEETING_DATE, NUMERIC_DATE, SOURCE_TIME, WEEKDAY_NAME,
};
use crate::text::{
    ascii_lower, ascii_lowercase, chars_of, concat, digits_value, law_parsed_number, opt_view,
    parse_i32, parse_u32, parsed_i32, parsed_u32, same_text, stands_at, text_of,
    to_ascii_lowercase, views,
};

verus! {

/// The part of a text from the word that opens its deadline on.
pub open spec fn clause_of(source: Seq<char>) -> Option<Seq<char>> {
    match first_match(DUE_MARKER@, source) {
        Some(found) => Some(found.1 + found.2),
        None => None,
    }
}

/// Finds the deadline clause of a schedule text.
pub fn deadline_clause(source: &str) -> (r: Option<String>)
    ensures
        opt_view(r) == clause_of(source@),
{
    match find(DUE_MARKER, source) {
        Some(found) => Some(concat(found.matched.as_str(), found.after.as_str())),
        None => None,
    }
}

/// Tells whether a text holds a date in digits.
pub fn has_numeric_date(text: &str) -> (r: bool)
    ensures
        r == (first_match(NUMERIC_DATE@, text@) is Some),
{
    is_match(NUMERIC_DATE, text)
}

/// Whether two items of a sequence differ.
pub open spec fn differ<T>(items: Seq<T>) -> bool {
    exists|i: int, j: int|
        0 <= i < items.len() && 0 <= j < items.len() && #[trigger] items[i] != #[trigger] items[j]
}

/// Refuses a text with two different dates.
pub fn reject_ambiguous_source(source: &str) -> (r: Result<(), Error>)
    ensures
        check_view(r) == if differ(all_matches(NUMERIC_DATE@, source@)) {
            Some(plain_failure(ErrorKind::MultipleDates))
        } else {
            None
        },
{
    let dates: Vec<String> = find_all(NUMERIC_DATE, source);
    let ghost all = views(dates@);
    let mut i: usize = 1;
    while i < dates.len()
        invariant
            all == views(dates@),
            all == all_matches(NUMERIC_DATE@, source@),
            1 <= i,
            forall|k: int| 0 <= k < i && k < all.len() ==> #[trigger] all[k] == all[0],
        decreases dates@.len() - i,
    {
        if dates[i] != dates[0] {
            assert(all[i as int] != all[0]);
            return Err(Error::plain(ErrorKind::MultipleDates));
        }
        assert(all[i as int] == all[0]);
        i = i + 1;
    }
    Ok(())
}

/// The day of the week whose English name starts with the first three letters of a name.
pub open spec fn weekday_named(name: Seq<char>) -> Option<Weekday> {
    let start = ascii_lowercase(name).take(3);
    if name.len() < 3 {
        None
    } else if start == "mon"@ {
        Some(Weekday::Mon)
    } else if start == "tue"@ {
        Some(Weekday::Tue)
    } else if start == "wed"@ {
        Some(Weekday::Wed)
    } else if start == "thu"@ {
        Some(Weekday::Thu)
    } else if start == "fri"@ {
        Some(Weekday::Fri)
    } else if start == "sat"@ {
        Some(Weekday::Sat)
    } else if start == "sun"@ {
        Some(Weekday::Sun)
    } else {
        None
    }
}

/// What is wrong with a weekday name beside a date.
pub open spec fn weekday_problem(name: Seq<char>, date: Date) -> Option<ErrorView> {
    match weekday_named(name) {
        None => Some(failure(ErrorKind::UnsupportedWeekday, name)),
        Some(weekday) => if date.day_of_week() != weekday {
            Some(plain_failure(ErrorKind::WeekdayMismatch))
        } else {
            None
        },
    }
}

/// Reads the name of a day of the week.
fn read_weekday(name: &str) -> (r: Option<Weekday>)
    ensures
        r == weekday_named(name@),
{
    let lower: String = to_ascii_lowercase(name);
    let chars: Vec<char> = chars_of(lower.as_str());
    if chars.len() < 3 {
        return None;
    }
    let start: String = text_of(&chars, 0, 3);
    assert(start@ =~= ascii_lowercase(name@).take(3));
    let start: &str = start.as_str();
    if same_text(start, "mon") {
        Some(Weekday::Mon)
    } else if same_text(start, "tue") {
        Some(Weekday::Tue)
    } else if same_text(start, "wed") {
        Some(Weekday::Wed)
    } else if same_text(start, "thu") {
        Some(Weekday::Thu)
    } else if same_text(start, "fri") {
        Some(Weekday::Fri)
    } else if same_text(start, "sat") {
        Some(Weekday::Sat)
    } else if same_text(start, "sun") {
        Some(Weekday::Sun)
    } else {
        None
    }
}

/// Holds a weekday name against a date.
pub fn validate_weekday(name: &str, date: Date) -> (r: Result<(), Error>)
    requires
        date.valid(),
    ensures
        check_view(r) == weekday_problem(name@, date),
{
    match read_weekday(name) {
        None => Err(Error::about(ErrorKind::UnsupportedWeekday, name)),
        Some(weekday) => if weekday_of(date) != weekday {
            Err(Error::plain(ErrorKind::WeekdayMismatch))
        } else {
            Ok(())
        },
    }
}

/// What is wrong with the groups that the date of a schedule row was read into.
pub open spec fn row_groups_problem(
    text: Seq<char>,
    groups: Option<Seq<Option<Seq<char>>>>,
) -> Option<ErrorView> {
    match groups {
        None => Some(failure(ErrorKind::InvalidRowDate, text)),
        Some(groups) => match (parsed_u32(groups[2]->0), parsed_u32(groups[3]->0)) {
            (Some(month), Some(day)) => if is_date(2026, month as int, day as int) {
                weekday_problem(
                    groups[1]->0,
                    Date { year: 2026, month: month as u32, day: day as u32 },
                )
            } else {
                Some(failure(ErrorKind::InvalidRowDate, text))
            },
            _ => Some(plain_failure(ErrorKind::InvalidNumber)),
        },
    }
}

/// What is wrong with the date of a schedule row.
pub open spec fn row_date_problem(text: Seq<char>) -> Option<ErrorView> {
    row_groups_problem(text, first_groups(MEETING_DATE@, text))
}

/// The groups of a match, where there was one, by view.
pub open spec fn found_groups(groups: Option<Vec<Option<String>>>) -> Option<
    Seq<Option<Seq<char>>>,
> {
    match groups {
        Some(groups) => Some(group_views(groups@)),
        None => None,
    }
}

/// Holds the groups that the date of a schedule row was read into against the calendar.
pub fn validate_row_groups(text: &str, groups: &Option<Vec<Option<String>>>) -> (r: Result<
    (),
    Error,
>)
    requires
        groups matches Some(found) ==> fills(group_views(found@), 4, -1),
    ensures
        check_view(r) == row_groups_problem(text@, found_groups(*groups)),
{
    match groups {
        None => Err(Error::about(ErrorKind::InvalidRowDate, text)),
        Some(groups) => {
            let ghost parts = group_views(groups@);
            assert(parts[1] is Some && parts[2] is Some && parts[3] is Some);
            match (&groups[1], &groups[2], &groups[3]) {
                (Some(name), Some(month), Some(day)) => {
                    match (parse_u32(month.as_str()), parse_u32(day.as_str())) {
                        (Some(month), Some(day)) => match date_from_ymd(2026, month, day) {
                            Some(date) => validate_weekday(name.as_str(), date),
                            None => Err(Error::about(ErrorKind::InvalidRowDate, text)),
                        },
                        _ => Err(Error::plain(ErrorKind::InvalidNumber)),
                    }
                },
                _ => Err(Error::plain(ErrorKind::InvalidNumber)),
            }
        },
    }
}

/// Checks the date of a schedule row.
pub fn validate_meeting_date(text: &str) -> (r: Result<(), Error>)
    ensures
        check_view(r) == row_date_problem(text@),
{
    let groups: Option<Vec<Option<String>>> = captures(MEETING_DATE, text);
    assert(has_shape(MEETING_DATE@, 4, -1));
    validate_row_groups(text, &groups)
}

/// The year of a date in digits: the term's where none is given, of this century where two digits
/// are.
pub open spec fn year_of(year: Option<Seq<char>>) -> Option<int> {
    match year {
        None => Some(2026),
        Some(text) => match parsed_i32(text) {
            Some(value) => if text.len() == 2 {
                Some(2000 + value)
            } else {
                Some(value)
            },
            None => None,
        },
    }
}

/// What is wrong with the date that the groups name, and with the weekday beside it, where
/// `expected` is due.
pub open spec fn date_groups_problem(
    groups: Option<Seq<Option<Seq<char>>>>,
    weekday: Option<Seq<char>>,
    expected: Date,
) -> Option<ErrorView> {
    match groups {
        None => Some(plain_failure(ErrorKind::NoNumericDate)),
        Some(groups) => match (
            parsed_u32(groups[1]->0),
            parsed_u32(groups[2]->0),
            year_of(groups[3]),
        ) {
            (Some(month), Some(day), Some(year)) => if !is_date(year, month as int, day as int) {
                Some(plain_failure(ErrorKind::InvalidEvidenceDate))
            } else if expected != (Date {
                year: year as i32,
                month: month as u32,
                day: day as u32,
            }) {
                Some(plain_failure(ErrorKind::DateMismatch))
            } else {
                match weekday {
                    Some(name) => weekday_problem(name, expected),
                    None => None,
                }
            },
            _ => Some(plain_failure(ErrorKind::InvalidNumber)),
        },
    }
}

/// The weekday name that a text holds first.
pub open spec fn weekday_in(text: Seq<char>) -> Option<Seq<char>> {
    match first_match(WEEKDAY_NAME@, text) {
        Some(found) => Some(found.1),
        None => None,
    }
}

/// What is wrong with a piece of evidence for a date.
pub open spec fn date_evidence_problem(evidence: Seq<char>, expected: Date) -> Option<ErrorView> {
    date_groups_problem(first_groups(DATE_PARTS@, evidence), weekday_in(evidence), expected)
}

/// Two digits have a value below a hundred.
proof fn lemma_two_digits(text: Seq<char>)
    requires
        text.len() <= 2,
        digits_value(text) is Some,
    ensures
        digits_value(text)->0 < 100,
{
    reveal_with_fuel(digits_value, 3);
}

/// Reads the year of a date in digits.
fn read_year(year: &Option<String>) -> (r: Option<i32>)
    ensures
        match r {
            Some(value) => year_of(opt_view(*year)) == Some(value as int),
            None => year_of(opt_view(*year)) is None,
        },
{
    match year {
        None => Some(2026),
        Some(text) => match parse_i32(text.as_str()) {
            Some(value) => {
                let length: usize = chars_of(text.as_str()).len();
                if length == 2 {
                    proof {
                        if text@[0] == '-' || text@[0] == '+' {
                            lemma_two_digits(text@.skip(1));
                        } else {
                            lemma_two_digits(text@);
                        }
                    }
                    Some(2000 + value)
                } else {
                    Some(value)
                }
            },
            None => None,
        },
    }
}

/// Holds the groups that a date was read into, and the weekday beside it, against the date that
/// is due.
pub fn validate_date_groups(
    groups: &Option<Vec<Option<String>>>,
    weekday: &Option<String>,
    expected: Date,
) -> (r: Result<(), Error>)
    requires
        groups matches Some(found) ==> fills(group_views(found@), 4, 3),
    ensures
        check_view(r) == date_groups_problem(found_groups(*groups), opt_view(*weekday), expected),
{
    match groups {
        None => Err(Error::plain(ErrorKind::NoNumericDate)),
        Some(groups) => {
            let ghost parts = group_views(groups@);
            assert(parts[1] is Some && parts[2] is Some);
            assert(parts[3] == opt_view(groups@[3]));
            match (&groups[1], &groups[2]) {
                (Some(month), Some(day)) => {
                    match (
                        parse_u32(month.as_str()),
                        parse_u32(day.as_str()),
                        read_year(&groups[3]),
                    ) {
                        (Some(month), Some(day), Some(year)) => {
                            match date_from_ymd(year, month, day) {
                                None => Err(Error::plain(ErrorKind::InvalidEvidenceDate)),
                                Some(found) => if found != expected {
                                    Err(Error::plain(ErrorKind::DateMismatch))
                                } else {
                                    match weekday {
                                        Some(name) => validate_weekday(name.as_str(), found),
                                        None => Ok(()),
                                    }
                                },
                            }
                        },
                        _ => Err(Error::plain(ErrorKind::InvalidNumber)),
                    }
                },
                _ => Err(Error::plain(ErrorKind::InvalidNumber)),
            }
        },
    }
}

/// Holds a piece of evidence against the date that is due.
pub fn validate_date_evidence(evidence: &str, expected: Date) -> (r: Result<(), Error>)
    ensures
        check_view(r) == date_evidence_problem(evidence@, expected),
{
    let groups: Option<Vec<Option<String>>> = captures(DATE_PARTS, evidence);
    assert(has_shape(DATE_PARTS@, 4, 3));
    let weekday: Option<String> = match find(WEEKDAY_NAME, evidence) {
        Some(found) => Some(found.matched),
        None => None,
    };
    validate_date_groups(&groups, &weekday, expected)
}

/// The time that the groups of one match name on the twelve hour clock.
pub open spec fn group_time(groups: Seq<Option<Seq<char>>>) -> Result<Time, ErrorView> {
    let minute_read = match groups[2] {
        Some(text) => parsed_u32(text),
        None => Some(0nat),
    };
    let half = groups[3]->0;
    let afternoon = half.len() > 0 && ascii_lower(half[0]) == 'p';
    match (parsed_u32(groups[1]->0), minute_read) {
        (Some(hour), Some(minute)) => if 1 <= hour <= 12 && minute <= 59 {
            Ok(
                minute_of_day(
                    (hour % 12) as int + if afternoon {
                        12int
                    } else {
                        0int
                    },
                    minute as int,
                )->0,
            )
        } else {
            Err(plain_failure(ErrorKind::InvalidSourceTime))
        },
        _ => Err(plain_failure(ErrorKind::InvalidNumber)),
    }
}

/// The times that the matches name, in order, or the first failure.
pub open spec fn group_times(matches: Seq<Seq<Option<Seq<char>>>>) -> Result<Seq<Time>, ErrorView>
    decreases matches.len(),
{
    if matches.len() == 0 {
        Ok(seq![])
    } else {
        match group_times(matches.drop_last()) {
            Err(error) => Err(error),
            Ok(times) => match group_time(matches.last()) {
                Err(error) => Err(error),
                Ok(time) => Ok(times.push(time)),
            },
        }
    }
}

/// The one time that the matches name, if they name any.
pub open spec fn agreed_time(matches: Seq<Seq<Option<Seq<char>>>>) -> Result<
    Option<Time>,
    ErrorView,
> {
    match group_times(matches) {
        Err(error) => Err(error),
        Ok(times) => if differ(times) {
            Err(plain_failure(ErrorKind::MultipleTimes))
        } else if times.len() == 0 {
            Ok(None)
        } else {
            Ok(Some(times[0]))
        },
    }
}

/// The one time that a text gives, if it gives any.
pub open spec fn source_time(text: Seq<char>) -> Result<Option<Time>, ErrorView> {
    agreed_time(all_groups(SOURCE_TIME@, text))
}

/// A result over a plain value, with the failure by view.
pub open spec fn plain_result<T>(result: Result<T, Error>) -> Result<T, ErrorView> {
    match result {
        Ok(value) => Ok(value),
        Err(error) => Err(error@),
    }
}

/// Reads the time of one match.
fn read_group_time(groups: &Vec<Option<String>>) -> (r: Result<Time, Error>)
    requires
        fills(group_views(groups@), 4, 2),
    ensures
        plain_result(r) == group_time(group_views(groups@)),
{
    let ghost parts = group_views(groups@);
    assert(parts[1] is Some && parts[3] is Some);
    assert(parts[2] == opt_view(groups@[2]));
    match (&groups[1], &groups[3]) {
        (Some(hour_text), Some(half)) => {
            let minute_read: Option<u32> = match &groups[2] {
                Some(text) => parse_u32(text.as_str()),
                None => Some(0),
            };
            let lower: Vec<char> = chars_of(to_ascii_lowercase(half.as_str()).as_str());
            let afternoon: bool = lower.len() > 0 && lower[0] == 'p';
            match (parse_u32(hour_text.as_str()), minute_read) {
                (Some(hour), Some(minute)) => {
                    if hour < 1 || hour > 12 || minute > 59 {
                        return Err(Error::plain(ErrorKind::InvalidSourceTime));
                    }
                    let mut on_clock: u32 = if hour == 12 {
                        0
                    } else {
                        hour
                    };
                    if afternoon {
                        on_clock = on_clock + 12;
                    }
                    match time_from_minute(on_clock, minute) {
                        Some(time) => Ok(time),
                        None => Err(Error::plain(ErrorKind::InvalidSourceTime)),
                    }
                },
                _ => Err(Error::plain(ErrorKind::InvalidNumber)),
            }
        },
        _ => Err(Error::plain(ErrorKind::InvalidNumber)),
    }
}

/// A failure in the first matches is the failure of all of them.
proof fn lemma_first_failure(matches: Seq<Seq<Option<Seq<char>>>>, at: int)
    requires
        0 <= at <= matches.len(),
        group_times(matches.take(at)) is Err,
    ensures
        group_times(matches) == group_times(matches.take(at)),
    decreases matches.len() - at,
{
    if at < matches.len() {
        assert(matches.take(at + 1).drop_last() =~= matches.take(at));
        lemma_first_failure(matches, at + 1);
    } else {
        assert(matches.take(at) =~= matches);
    }
}

/// Finds the one time that the matches name.
pub fn agree_on_time(matches: &Vec<Vec<Option<String>>>) -> (r: Result<Option<Time>, Error>)
    requires
        forall|i: int|
            0 <= i < matches@.len() ==> fills(group_views(#[trigger] matches@[i]@), 4, 2),
    ensures
        plain_result(r) == agreed_time(match_views(matches@)),
{
    let ghost all = match_views(matches@);
    let mut times: Vec<Time> = Vec::new();
    let mut i: usize = 0;
    while i < matches.len()
        invariant
            i <= matches@.len(),
            all == match_views(matches@),
            group_times(all.take(i as int)) == Ok::<_, ErrorView>(times@),
            forall|i: int|
                0 <= i < matches@.len() ==> fills(group_views(#[trigger] matches@[i]@), 4, 2),
        decreases matches@.len() - i,
    {
        let ghost next = all.take(i + 1);
        assert(next.drop_last() =~= all.take(i as int));
        assert(next.last() == group_views(matches@[i as int]@));
        match read_group_time(&matches[i]) {
            Ok(time) => {
                times.push(time);
            },
            Err(error) => {
                proof {
                    lemma_first_failure(all, i + 1);
                }
                return Err(error);
            },
        }
        i = i + 1;
    }
    assert(all.take(i as int) =~= all);
    let mut k: usize = 1;
    while k < times.len()
        invariant
            group_times(match_views(matches@)) == Ok::<_, ErrorView>(times@),
            1 <= k,
            forall|m: int| 0 <= m < k && m < times@.len() ==> #[trigger] times@[m] == times@[0],
        decreases times@.len() - k,
    {
        if times[k] != times[0] {
            assert(times@[k as int] != times@[0]);
            return Err(Error::plain(ErrorKind::MultipleTimes));
        }
        k = k + 1;
    }
    if times.len() == 0 {
        Ok(None)
    } else {
        Ok(Some(times[0]))
    }
}

/// Finds the one time that a text gives.
pub fn parse_source_time(evidence: &str) -> (r: Result<Option<Time>, Error>)
    ensures
        plain_result(r) == source_time(evidence@),
{
    let matches: Vec<Vec<Option<String>>> = captures_all(SOURCE_TIME, evidence);
    assert(has_shape(SOURCE_TIME@, 4, 2));
    agree_on_time(&matches)
}

/// A deadline at a local time, where there is exactly one such moment.
pub open spec fn timed_deadline(date: Date, time: Time) -> Result<Deadline, ErrorView> {
    if los_angeles_utc(DateTime { date, time }) is Some {
        Ok(Deadline::Timed { local: DateTime { date, time } })
    } else {
        Err(plain_failure(ErrorKind::NotUniqueLocalTime))
    }
}

/// Makes a deadline at a local time.
pub fn local_deadline(date: Date, time: Time) -> (r: Result<Deadline, Error>)
    requires
        date.valid(),
        time.valid(),
    ensures
        plain_result(r) == timed_deadline(date, time),
        in_term(date) ==> (r is Ok <==> term_utc(DateTime { date, time }) is Some),
{
    let local: DateTime = DateTime { date, time };
    match los_angeles_to_utc(local) {
        Some(_) => Ok(Deadline::Timed { local }),
        None => Err(Error::plain(ErrorKind::NotUniqueLocalTime)),
    }
}

/// A deadline clause starts with the word that opens a deadline and goes up to the end of the
/// text. There is none exactly where the word is not found.
pub proof fn law_clause(source: Seq<char>, before: Seq<char>, word: Seq<char>, after: Seq<char>)
    requires
        source == before + word + after,
        first_match(DUE_MARKER@, source) is None || first_match(DUE_MARKER@, source) == Some(
            (before, word, after),
        ),
    ensures
        clause_of(source) is Some <==> first_match(DUE_MARKER@, source) is Some,
        clause_of(source) matches Some(clause) ==> source == before + clause && stands_at(
            clause,
            word,
            0,
        ),
{
    assert((word + after).subrange(0, word.len() as int) =~= word);
    assert(before + word + after =~= before + (word + after));
}

/// Items do not differ exactly where all are the first one.
pub proof fn law_differ<T>(items: Seq<T>)
    ensures
        !differ(items) <==> forall|i: int| 0 <= i < items.len() ==> #[trigger] items[i] == items[0],
{
}

/// The English short name of a day of the week, in lower case.
pub open spec fn short_name(weekday: Weekday) -> Seq<char> {
    match weekday {
        Weekday::Mon => seq!['m', 'o', 'n'],
        Weekday::Tue => seq!['t', 'u', 'e'],
        Weekday::Wed => seq!['w', 'e', 'd'],
        Weekday::Thu => seq!['t', 'h', 'u'],
        Weekday::Fri => seq!['f', 'r', 'i'],
        Weekday::Sat => seq!['s', 'a', 't'],
        Weekday::Sun => seq!['s', 'u', 'n'],
    }
}

/// A name is that of a weekday exactly where its first three letters, in either case, are the
/// short name of that day, whatever follows them.
pub proof fn law_weekday_named(name: Seq<char>, weekday: Weekday)
    ensures
        weekday_named(name) == Some(weekday) <==> name.len() >= 3 && ascii_lowercase(
            name.take(3),
        ) == short_name(weekday),
{
    reveal_strlit("mon");
    reveal_strlit("tue");
    reveal_strlit("wed");
    reveal_strlit("thu");
    reveal_strlit("fri");
    reveal_strlit("sat");
    reveal_strlit("sun");
    assert("mon"@ =~= short_name(Weekday::Mon));
    assert("tue"@ =~= short_name(Weekday::Tue));
    assert("wed"@ =~= short_name(Weekday::Wed));
    assert("thu"@ =~= short_name(Weekday::Thu));
    assert("fri"@ =~= short_name(Weekday::Fri));
    assert("sat"@ =~= short_name(Weekday::Sat));
    assert("sun"@ =~= short_name(Weekday::Sun));
    if name.len() >= 3 {
        assert(ascii_lowercase(name.take(3)) =~= ascii_lowercase(name).take(3));
        let start = ascii_lowercase(name).take(3);
        if start == short_name(weekday) {
            assert(start[0] == short_name(weekday)[0]);
            assert(start[1] == short_name(weekday)[1]);
            assert(start[2] == short_name(weekday)[2]);
            assert forall|other: Weekday| start == #[trigger] short_name(other) implies other
                == weekday by {
                assert(start[0] == short_name(other)[0]);
                assert(start[1] == short_name(other)[1]);
            }
        }
    }
}

/// A weekday beside a date is right exactly where the date falls on the day with that short name.
pub proof fn law_weekday_has_to_agree(name: Seq<char>, date: Date)
    ensures
        weekday_problem(name, date) is None <==> name.len() >= 3 && ascii_lowercase(name.take(3))
            == short_name(date.day_of_week()),
        weekday_problem(name, date) matches Some(error) ==> error.kind
            == ErrorKind::WeekdayMismatch || error.kind == ErrorKind::UnsupportedWeekday,
{
    law_weekday_named(name, date.day_of_week());
}

/// The date of a schedule row is right exactly where its month and its day are ones of 2026 and
/// fall on the weekday that it names.
pub proof fn law_row_date(
    text: Seq<char>,
    name: Seq<char>,
    month_text: Seq<char>,
    day_text: Seq<char>,
    whole: Seq<char>,
    month: nat,
    day: nat,
)
    requires
        parsed_u32(month_text) == Some(month),
        parsed_u32(day_text) == Some(day),
        month <= 0xffff_ffff,
        day <= 0xffff_ffff,
    ensures
        row_groups_problem(text, None) is Some,
        row_groups_problem(
            text,
            Some(seq![Some(whole), Some(name), Some(month_text), Some(day_text)]),
        ) is None <==> {
            let date = Date { year: 2026, month: month as u32, day: day as u32 };
            &&& date.valid()
            &&& name.len() >= 3
            &&& ascii_lowercase(name.take(3)) == short_name(date.day_of_week())
        },
{
    let date = Date { year: 2026, month: month as u32, day: day as u32 };
    law_weekday_named(name, date.day_of_week());
}

/// A date without a year is one of 2026, a year of two digits is one of this century, and any
/// other year is what it says.
pub proof fn law_year(text: Seq<char>)
    requires
        text.len() > 0,
        forall|i: int| 0 <= i < text.len() ==> '0' <= #[trigger] text[i] <= '9',
        digits_value(text) matches Some(value) && value <= 0x7fff_ffff,
    ensures
        year_of(None) == Some(2026int),
        text.len() == 2 ==> year_of(Some(text)) == Some(2000 + digits_value(text)->0 as int),
        text.len() != 2 ==> year_of(Some(text)) == Some(digits_value(text)->0 as int),
{
    law_parsed_number(text);
}

/// A piece of evidence is right exactly where the month, the day and the year that it names, or
/// else 2026, are those of the date that is due, and the weekday in it, if any, is that of the
/// date.
pub proof fn law_date_has_to_agree(
    whole: Seq<char>,
    month_text: Seq<char>,
    day_text: Seq<char>,
    year_text: Option<Seq<char>>,
    weekday: Option<Seq<char>>,
    expected: Date,
    month: nat,
    day: nat,
    year: int,
)
    requires
        parsed_u32(month_text) == Some(month),
        parsed_u32(day_text) == Some(day),
        year_of(year_text) == Some(year),
        month <= 0xffff_ffff,
        day <= 0xffff_ffff,
        -0x8000_0000 <= year <= 0x7fff_ffff,
        expected.valid(),
    ensures
        date_groups_problem(None, weekday, expected) is Some,
        date_groups_problem(
            Some(seq![Some(whole), Some(month_text), Some(day_text), year_text]),
            weekday,
            expected,
        ) is None <==> {
            &&& expected.month == month
            &&& expected.day == day
            &&& expected.year == year
            &&& weekday matches Some(name) ==> name.len() >= 3 && ascii_lowercase(name.take(3))
                == short_name(expected.day_of_week())
        },
{
    match weekday {
        Some(name) => {
            law_weekday_named(name, expected.day_of_week());
        },
        None => {},
    }
}

/// A time on the twelve hour clock keeps its minute. In the morning its hour is the one that is
/// named, and in the afternoon twelve more; twelve itself opens either half. So a time of the
/// afternoon is never before noon, and one of the morning never from noon on. Hours beyond twelve
/// and minutes beyond the hour make no time.
pub proof fn law_clock_time(groups: Seq<Option<Seq<char>>>, hour: nat, minute: nat)
    requires
        groups.len() == 4,
        groups[1] matches Some(text) && parsed_u32(text) == Some(hour),
        match groups[2] {
            Some(text) => parsed_u32(text) == Some(minute),
            None => minute == 0,
        },
        groups[3] matches Some(half) && half.len() > 0 && (half[0] == 'a' || half[0] == 'A'
            || half[0] == 'p' || half[0] == 'P'),
    ensures
        ({
            let afternoon = groups[3]->0[0] == 'p' || groups[3]->0[0] == 'P';
            if hour < 1 || hour > 12 || minute > 59 {
                group_time(groups) matches Err(error) && error.kind == ErrorKind::InvalidSourceTime
            } else {
                group_time(groups) matches Ok(time) && {
                    &&& time.minute == minute
                    &&& time.second == 0 && time.nanosecond == 0
                    &&& hour < 12 ==> time.hour == hour + if afternoon {
                        12int
                    } else {
                        0int
                    }
                    &&& hour == 12 ==> time.hour == if afternoon {
                        12int
                    } else {
                        0int
                    }
                    &&& afternoon <==> time.hour >= 12
                }
            }
        }),
{
}

/// The time of matches is the one that each of them names. Without a match there is none, and
/// matches that name different times, or one that names none, are a failure.
pub proof fn law_agreed_time(matches: Seq<Seq<Option<Seq<char>>>>, time: Time)
    ensures
        matches.len() == 0 <==> agreed_time(matches) == Ok::<Option<Time>, ErrorView>(None),
        matches.len() > 0 ==> (agreed_time(matches) == Ok::<_, ErrorView>(Some(time))
            <==> forall|i: int|
            0 <= i < matches.len() ==> #[trigger] group_time(matches[i]) == Ok::<_, ErrorView>(
                time,
            )),
{
    lemma_group_times_one_by_one(matches);
    if group_times(matches) is Ok {
        let times = group_times(matches)->Ok_0;
        if matches.len() > 0 && agreed_time(matches) == Ok::<_, ErrorView>(Some(time)) {
            assert forall|i: int| 0 <= i < matches.len() implies #[trigger] group_time(matches[i])
                == Ok::<_, ErrorView>(time) by {
                assert(times[i] == times[0]);
            }
        }
        if matches.len() > 0 && forall|i: int|
            0 <= i < matches.len() ==> #[trigger] group_time(matches[i]) == Ok::<_, ErrorView>(
                time,
            ) {
            assert forall|i: int| 0 <= i < times.len() implies #[trigger] times[i] == time by {
                assert(group_time(matches[i]) == Ok::<_, ErrorView>(times[i]));
            }
            assert(times[0] == time);
        }
    }
}

/// Times are read match by match.
proof fn lemma_group_times_one_by_one(matches: Seq<Seq<Option<Seq<char>>>>)
    ensures
        group_times(matches) matches Ok(times) ==> times.len() == matches.len() && forall|i: int|
            0 <= i < matches.len() ==> #[trigger] group_time(matches[i]) == Ok::<_, ErrorView>(
                times[i],
            ),
        group_times(matches) is Err ==> exists|i: int|
            0 <= i < matches.len() && #[trigger] group_time(matches[i]) is Err,
    decreases matches.len(),
{
    if matches.len() > 0 {
        let front = matches.drop_last();
        lemma_group_times_one_by_one(front);
        let last = matches.len() - 1;
        assert(matches[last] == matches.last());
        if group_times(front) is Err {
            let i = choose|i: int| 0 <= i < front.len() && #[trigger] group_time(front[i]) is Err;
            assert(group_time(matches[i]) is Err);
        } else if group_time(matches.last()) is Err {
            assert(group_time(matches[last]) is Err);
        } else {
            let times = group_times(matches)->Ok_0;
            assert forall|i: int| 0 <= i < matches.len() implies #[trigger] group_time(matches[i])
                == Ok::<_, ErrorView>(times[i]) by {
                if i < last {
                    assert(group_time(front[i]) == Ok::<_, ErrorView>(
                        group_times(front)->Ok_0[i],
                    ));
                }
            }
        }
    }
}

/// A deadline at a local time keeps its day and its time, and is made exactly where the time names
/// one moment.
pub proof fn law_timed_deadline(date: Date, time: Time, deadline: Deadline)
    ensures
        timed_deadline(date, time) == Ok::<_, ErrorView>(deadline) <==> {
            &&& los_angeles_utc(DateTime { date, time }) is Some
            &&& deadline matches Deadline::Timed { local } && local.date == date && local.time
                == time
        },
{
}

/// Evidence is right for a date exactly where the first date in digits that is found in it is that
/// date, and the first weekday that is found in it, if any, is the one that the date falls on.
pub proof fn law_evidence_for_date(
    evidence: Seq<char>,
    groups: Seq<Option<Seq<char>>>,
    expected: Date,
    month: nat,
    day: nat,
    year: int,
)
    requires
        first_groups(DATE_PARTS@, evidence) == Some(groups),
        fills(groups, 4, 3),
        parsed_u32(groups[1]->0) == Some(month),
        parsed_u32(groups[2]->0) == Some(day),
        year_of(groups[3]) == Some(year),
        month <= 0xffff_ffff,
        day <= 0xffff_ffff,
        -0x8000_0000 <= year <= 0x7fff_ffff,
        expected.valid(),
    ensures
        date_evidence_problem(evidence, expected) is None <==> {
            &&& expected.month == month
            &&& expected.day == day
            &&& expected.year == year
            &&& first_match(WEEKDAY_NAME@, evidence) matches Some(found) ==> found.1.len() >= 3
                && ascii_lowercase(found.1.take(3)) == short_name(expected.day_of_week())
        },
{
    assert(groups[1] is Some && groups[2] is Some);
    assert(groups =~= seq![groups[0], groups[1], groups[2], groups[3]]);
    match first_match(WEEKDAY_NAME@, evidence) {
        Some(found) => {
            law_weekday_named(found.1, expected.day_of_week());
        },
        None => {},
    }
}

/// Evidence without a date in digits is right for no date.
pub proof fn law_no_date_in_evidence(evidence: Seq<char>, expected: Date)
    requires
        first_groups(DATE_PARTS@, evidence) is None,
    ensures
        date_evidence_problem(evidence, expected) is Some,
{
}

/// The date of a row is wrong where it does not have its form, and else right exactly where its
/// month and day are ones of 2026 on the weekday that it names.
pub proof fn law_row_text(text: Seq<char>, groups: Seq<Option<Seq<char>>>, month: nat, day: nat)
    requires
        first_groups(MEETING_DATE@, text) is None || first_groups(MEETING_DATE@, text) == Some(
            groups,
        ),
        fills(groups, 4, -1),
        parsed_u32(groups[2]->0) == Some(month),
        parsed_u32(groups[3]->0) == Some(day),
        month <= 0xffff_ffff,
        day <= 0xffff_ffff,
    ensures
        row_date_problem(text) is None <==> {
            let date = Date { year: 2026, month: month as u32, day: day as u32 };
            let name = groups[1]->0;
            &&& first_groups(MEETING_DATE@, text) is Some
            &&& date.valid()
            &&& name.len() >= 3
            &&& ascii_lowercase(name.take(3)) == short_name(date.day_of_week())
        },
{
    assert(groups[1] is Some && groups[2] is Some && groups[3] is Some);
    let date = Date { year: 2026, month: month as u32, day: day as u32 };
    law_weekday_named(groups[1]->0, date.day_of_week());
}

/// A text gives a time exactly where times are found in it and all of them are that time, and none
/// exactly where none is found.
pub proof fn law_source_time(text: Seq<char>, time: Time)
    ensures
        source_time(text) == Ok::<Option<Time>, ErrorView>(None) <==> all_groups(
            SOURCE_TIME@,
            text,
        ).len() == 0,
        source_time(text) == Ok::<_, ErrorView>(Some(time)) <==> all_groups(
            SOURCE_TIME@,
            text,
        ).len() > 0 && forall|i: int|
            0 <= i < all_groups(SOURCE_TIME@, text).len() ==> #[trigger] group_time(
                all_groups(SOURCE_TIME@, text)[i],
            ) == Ok::<_, ErrorView>(time),
{
    law_agreed_time(all_groups(SOURCE_TIME@, text), time);
}

/// What is wrong with a date or a time is told by kind.
pub proof fn law_kinds_of_bad_dates(
    text: Seq<char>,
    groups: Seq<Option<Seq<char>>>,
    weekday: Option<Seq<char>>,
    expected: Date,
    time: Time,
)
    ensures
        row_groups_problem(text, None) matches Some(error) && error.kind
            == ErrorKind::InvalidRowDate && error.subject == text,
        date_groups_problem(None, weekday, expected) matches Some(error) && error.kind
            == ErrorKind::NoNumericDate,
        parsed_u32(groups[2]->0) is None || parsed_u32(groups[3]->0) is None ==> (
        row_groups_problem(text, Some(groups)) matches Some(error) && error.kind
            == ErrorKind::InvalidNumber),
        parsed_u32(groups[1]->0) is None || parsed_u32(groups[2]->0) is None ==> (
        date_groups_problem(Some(groups), weekday, expected) matches Some(error) && error.kind
            == ErrorKind::InvalidNumber),
        (parsed_u32(groups[2]->0) matches Some(month) && parsed_u32(groups[3]->0) matches Some(day)
            && !is_date(2026, month as int, day as int)) ==> (row_groups_problem(
            text,
            Some(groups),
        ) matches Some(error) && error.kind == ErrorKind::InvalidRowDate && error.subject == text),
        (parsed_u32(groups[1]->0) matches Some(month) && parsed_u32(groups[2]->0) matches Some(day)
            && year_of(groups[3]) matches Some(year) && !is_date(year, month as int, day as int))
            ==> (date_groups_problem(Some(groups), weekday, expected) matches Some(error)
            && error.kind == ErrorKind::InvalidEvidenceDate),
        (parsed_u32(groups[1]->0) matches Some(month) && parsed_u32(groups[2]->0) matches Some(day)
            && year_of(groups[3]) matches Some(year) && is_date(year, month as int, day as int) && (
        expected.year != year || expected.month != month || expected.day != day)) ==> (
        date_groups_problem(Some(groups), weekday, expected) matches Some(error) && error.kind
            == ErrorKind::DateMismatch),
        timed_deadline(expected, time) matches Err(error) ==> error.kind
            == ErrorKind::NotUniqueLocalTime,
{
}

/// Two times that differ, where each match names one, are told as such.
pub proof fn law_kind_of_many_times(matches: Seq<Seq<Option<Seq<char>>>>)
    ensures
        (group_times(matches) matches Ok(times) && differ(times)) ==> (agreed_time(matches)
            matches Err(error) && error.kind == ErrorKind::MultipleTimes),
{
}

} // verus!
