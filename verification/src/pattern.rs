//! The text patterns of the schedule, and what the regex crate finds with them.

use regex::Regex;
use vstd::prelude::*;

use crate::text::{ascii_lowercase, has_part, opt_view, stands_at, views};

verus! {

/// The word that opens a deadline.
pub const DUE_MARKER: &'static str = r"(?i)\b(?:due|by)\b";

/// From the word that opens a deadline to the end of the line.
pub const DUE_TAIL: &'static str = r"(?i)\b(?:due|by)\b.*$";

/// Where one item of a schedule cell ends and the next begins.
pub const SEGMENT_END: &'static str = r"(?i)<br\s*/?>|</(?:p|li|div)>";

/// The date of a schedule row: weekday, month and day.
pub const MEETING_DATE: &'static str =
    r"(?i)^\s*(mon|tue|wed|thu|fri|sat|sun)[a-z]*\s+(\d{1,2})/(\d{1,2})\s*$";

/// An assignment code: its kind and its number.
pub const ASSIGNMENT_CODE: &'static str =
    r"(?i)\b(hw|ae|quiz|proj(?:ect)?)\s*[-_ ]?0*(\d+)\b";

/// A week's code-alongs: the number of the week.
pub const WEEK_CODE: &'static str = r"(?i)\bwk\s*0*(\d+)\b.*\bcode\s*[- ]?alongs?\b";

/// The start of a web address.
pub const ADDRESS_MARK: &'static str = r"(?i)\b(?:https?://|www\.)";

/// A date in digits.
pub const NUMERIC_DATE: &'static str = r"\b\d{1,2}/\d{1,2}(?:/\d{2,4})?\b";

/// A date in digits: month, day and, where it is given, year.
pub const DATE_PARTS: &'static str = r"(?i)\b(\d{1,2})/(\d{1,2})(?:/(\d{2,4}))?\b";

/// The name of a day of the week, whole or cut to three letters.
pub const WEEKDAY_NAME: &'static str =
    r"(?i)\b(mon(?:day)?|tue(?:sday)?|wed(?:nesday)?|thu(?:rsday)?|fri(?:day)?|sat(?:urday)?|sun(?:day)?)\b";

/// A time on the twelve hour clock: hour, minute where it is given, and half of the day. Whatever
/// is no part of a word may stand behind it.
pub const SOURCE_TIME: &'static str =
    r"(?i)\b(\d{1,2})(?::(\d{2}))?\s*(a\.?m\.?|p\.?m\.?)(?:\W|$)";

/// Whether a pattern is one of this module. The regex crate compiles each of them.
pub open spec fn is_pattern(pattern: Seq<char>) -> bool {
    ||| pattern == DUE_MARKER@
    ||| pattern == DUE_TAIL@
    ||| pattern == SEGMENT_END@
    ||| pattern == MEETING_DATE@
    ||| pattern == ASSIGNMENT_CODE@
    ||| pattern == WEEK_CODE@
    ||| pattern == ADDRESS_MARK@
    ||| pattern == NUMERIC_DATE@
    ||| pattern == DATE_PARTS@
    ||| pattern == WEEKDAY_NAME@
    ||| pattern == SOURCE_TIME@
}

/// Whether a pattern has `count` groups, the whole match included, of which only the group
/// `optional` can be left out of a match.
pub open spec fn has_shape(pattern: Seq<char>, count: int, optional: int) -> bool {
    ||| pattern == MEETING_DATE@ && count == 4 && optional == -1
    ||| pattern == ASSIGNMENT_CODE@ && count == 3 && optional == -1
    ||| pattern == WEEK_CODE@ && count == 2 && optional == -1
    ||| pattern == DATE_PARTS@ && count == 4 && optional == 3
    ||| pattern == SOURCE_TIME@ && count == 4 && optional == 2
}

/// Whether there are `count` groups, each with a text but for the group `optional`.
pub open spec fn fills(groups: Seq<Option<Seq<char>>>, count: int, optional: int) -> bool {
    &&& groups.len() == count
    &&& forall|i: int| 0 <= i < count && i != optional ==> #[trigger] groups[i] is Some
}

/// The texts of the groups of one match.
pub open spec fn group_views(groups: Seq<Option<String>>) -> Seq<Option<Seq<char>>> {
    groups.map_values(|group: Option<String>| opt_view(group))
}

/// The texts of the groups of each match.
pub open spec fn match_views(matches: Seq<Vec<Option<String>>>) -> Seq<Seq<Option<Seq<char>>>> {
    matches.map_values(|groups: Vec<Option<String>>| group_views(groups@))
}

/// A match of a pattern: the text before it, its own text, and the text after it.
pub struct Found {
    pub before: String,
    pub matched: String,
    pub after: String,
}

impl View for Found {
    type V = (Seq<char>, Seq<char>, Seq<char>);

    open spec fn view(&self) -> (Seq<char>, Seq<char>, Seq<char>) {
        (self.before@, self.matched@, self.after@)
    }
}

/// The first match that `Regex::find` reports: the text before it, its own, and the text after.
pub uninterp spec fn first_match(pattern: Seq<char>, text: Seq<char>) -> Option<
    (Seq<char>, Seq<char>, Seq<char>),
>;

/// Calls `Regex::find`. The three parts of a match are the text, in order. Where the first match
/// lies is left to the name `first_match`.
#[verifier::external_body]
pub(crate) fn find(pattern: &str, text: &str) -> (r: Option<Found>)
    requires
        is_pattern(pattern@),
    ensures
        opt_view(r) == first_match(pattern@, text@),
        r matches Some(found) ==> found.before@ + found.matched@ + found.after@ == text@,
{
    let regex = Regex::new(pattern).expect("static regex");
    regex.find(text).map(|found| Found {
        before: text[..found.start()].to_owned(),
        matched: found.as_str().to_owned(),
        after: text[found.end()..].to_owned(),
    })
}

/// Calls `Regex::is_match`, which tells whether `Regex::find` finds anything.
#[verifier::external_body]
pub(crate) fn is_match(pattern: &str, text: &str) -> (r: bool)
    requires
        is_pattern(pattern@),
    ensures
        r == (first_match(pattern@, text@) is Some),
{
    Regex::new(pattern).expect("static regex").is_match(text)
}

/// The texts of all the matches that `Regex::find_iter` reports, in order.
pub uninterp spec fn all_matches(pattern: Seq<char>, text: Seq<char>) -> Seq<Seq<char>>;

/// Calls `Regex::find_iter`. There is a match in the list where `Regex::find` finds one, and it
/// comes first.
#[verifier::external_body]
pub(crate) fn find_all(pattern: &str, text: &str) -> (r: Vec<String>)
    requires
        is_pattern(pattern@),
    ensures
        views(r@) == all_matches(pattern@, text@),
        match first_match(pattern@, text@) {
            Some(found) => r@.len() > 0 && r@[0]@ == found.1,
            None => r@.len() == 0,
        },
{
    let regex = Regex::new(pattern).expect("static regex");
    regex.find_iter(text).map(|found| found.as_str().to_owned()).collect()
}

/// The groups of the first match that `Regex::captures` reports, the whole match first.
pub uninterp spec fn first_groups(pattern: Seq<char>, text: Seq<char>) -> Option<
    Seq<Option<Seq<char>>>,
>;

/// Calls `Regex::captures`. There are groups where `Regex::find` finds a match, group zero is the
/// text of that match, and there are as many groups as the pattern has.
#[verifier::external_body]
pub(crate) fn captures(pattern: &str, text: &str) -> (r: Option<Vec<Option<String>>>)
    requires
        is_pattern(pattern@),
    ensures
        match r {
            Some(groups) => first_groups(pattern@, text@) == Some(group_views(groups@)),
            None => first_groups(pattern@, text@) is None,
        },
        match first_match(pattern@, text@) {
            Some(found) => r is Some && r->0@.len() > 0 && opt_view(r->0@[0]) == Some(found.1),
            None => r is None,
        },
        r matches Some(groups) ==> forall|count: int, optional: int| #[trigger]
            has_shape(pattern@, count, optional) ==> fills(group_views(groups@), count, optional),
{
    let regex = Regex::new(pattern).expect("static regex");
    regex.captures(text).map(|groups| {
        groups.iter().map(|group| group.map(|part| part.as_str().to_owned())).collect()
    })
}

/// The groups of all the matches that `Regex::captures_iter` reports, in order.
pub uninterp spec fn all_groups(pattern: Seq<char>, text: Seq<char>) -> Seq<Seq<Option<Seq<char>>>>;

/// Calls `Regex::captures_iter`. There is a match in the list exactly where `Regex::find` finds
/// one, and each has as many groups as the pattern has.
#[verifier::external_body]
pub(crate) fn captures_all(pattern: &str, text: &str) -> (r: Vec<Vec<Option<String>>>)
    requires
        is_pattern(pattern@),
    ensures
        match_views(r@) == all_groups(pattern@, text@),
        (r@.len() == 0) == (first_match(pattern@, text@) is None),
        forall|i: int, count: int, optional: int|
            0 <= i < r@.len() && #[trigger] has_shape(pattern@, count, optional) ==> fills(
                group_views(#[trigger] r@[i]@),
                count,
                optional,
            ),
{
    let regex = Regex::new(pattern).expect("static regex");
    regex.captures_iter(text).map(|groups| {
        groups.iter().map(|group| group.map(|part| part.as_str().to_owned())).collect()
    }).collect()
}

/// A text with the first match of a pattern replaced.
pub open spec fn with_first_replaced(
    pattern: Seq<char>,
    text: Seq<char>,
    replacement: Seq<char>,
) -> Seq<char> {
    match first_match(pattern, text) {
        Some(found) => found.0 + replacement + found.2,
        None => text,
    }
}

/// Whether a text is a start and a deadline behind it: a blank, the word due or by in letters of
/// either case, a blank, and whatever follows, all on one line.
pub open spec fn goes_on_with_deadline(text: Seq<char>, start: Seq<char>) -> bool {
    let rest = text.skip(start.len() as int);
    &&& stands_at(text, start, 0)
    &&& stands_at(ascii_lowercase(rest), " due "@, 0) || stands_at(
        ascii_lowercase(rest),
        " by "@,
        0,
    )
    &&& !rest.contains('\n')
}

/// Whether a text has no deadline: the pattern of one is not found in it, or already the letters of
/// the words that open one are missing.
pub open spec fn has_no_deadline(text: Seq<char>) -> bool {
    let lower = ascii_lowercase(text);
    first_match(DUE_TAIL@, text) is None || !has_part(lower, "due"@) && !has_part(lower, "by"@)
}

/// Calls `Regex::replace`, which puts the replacement in place of the first match. A dollar sign
/// in the replacement would name a group. Where a text goes on with a deadline, the match is from
/// the word that opens it to the end, if there is no deadline in what stands before: the blank ends
/// the last word there.
#[verifier::external_body]
pub(crate) fn replace_first(pattern: &str, text: &str, replacement: &str) -> (r: String)
    requires
        is_pattern(pattern@),
        !replacement@.contains('$'),
    ensures
        r@ == with_first_replaced(pattern@, text@, replacement@),
        pattern@ == DUE_TAIL@ ==> forall|start: Seq<char>| #[trigger]
            goes_on_with_deadline(text@, start) && has_no_deadline(start) ==> r@ == start.push(' ')
                + replacement@,
{
    Regex::new(pattern).expect("static regex").replace(text, replacement).into_owned()
}

/// The pieces that `Regex::split` cuts a text into.
pub uninterp spec fn pieces(pattern: Seq<char>, text: Seq<char>) -> Seq<Seq<char>>;

/// Calls `Regex::split`. A text without a match is one piece.
#[verifier::external_body]
pub(crate) fn split(pattern: &str, text: &str) -> (r: Vec<String>)
    requires
        is_pattern(pattern@),
    ensures
        views(r@) == pieces(pattern@, text@),
        first_match(pattern@, text@) is None ==> r@.len() == 1 && r@[0]@ == text@,
{
    Regex::new(pattern).expect("static regex").split(text).map(|piece| piece.to_owned()).collect()
}

/// The patterns of deadlines, items, dates, codes and times.
pub proof fn law_patterns()
    ensures
        DUE_MARKER@ == r"(?i)\b(?:due|by)\b"@,
        DUE_TAIL@ == r"(?i)\b(?:due|by)\b.*$"@,
        SEGMENT_END@ == r"(?i)<br\s*/?>|</(?:p|li|div)>"@,
        MEETING_DATE@
            == r"(?i)^\s*(mon|tue|wed|thu|fri|sat|sun)[a-z]*\s+(\d{1,2})/(\d{1,2})\s*$"@,
        ASSIGNMENT_CODE@ == r"(?i)\b(hw|ae|quiz|proj(?:ect)?)\s*[-_ ]?0*(\d+)\b"@,
        WEEK_CODE@ == r"(?i)\bwk\s*0*(\d+)\b.*\bcode\s*[- ]?alongs?\b"@,
        ADDRESS_MARK@ == r"(?i)\b(?:https?://|www\.)"@,
        NUMERIC_DATE@ == r"\b\d{1,2}/\d{1,2}(?:/\d{2,4})?\b"@,
        DATE_PARTS@ == r"(?i)\b(\d{1,2})/(\d{1,2})(?:/(\d{2,4}))?\b"@,
        WEEKDAY_NAME@
            == r"(?i)\b(mon(?:day)?|tue(?:sday)?|wed(?:nesday)?|thu(?:rsday)?|fri(?:day)?|sat(?:urday)?|sun(?:day)?)\b"@,
        SOURCE_TIME@ == r"(?i)\b(\d{1,2})(?::(\d{2}))?\s*(a\.?m\.?|p\.?m\.?)(?:\W|$)"@,
{
}

} // verus!
