//! Writes the calendar of a state.

use vstd::prelude::*;
use vstd::utf8::is_ascii_chars;

use crate::clock::{
    compact_date, compact_stamp, format_date, format_stamp, in_term, los_angeles_to_utc,
    los_angeles_utc, next_day, padded, term_utc, year_text, Date, DateTime,
};
use crate::digest::is_uid;
use crate::folding::folds;
use crate::ics::{
    are_unbroken, are_writable, calendar_lines, can_fold_property, content_line,
    default_properties, escaped, event_views, has_line, have_own_keys, is_one_line, is_plain,
    is_plain_char, is_short, is_whole_event, is_writable, law_plain_lines, lemma_ascii_is_writable,
    lemma_plain_is_simple, lemma_unbroken_line, make_property, plain_property, property_line,
    render, rendered, Property, PropertyView,
};
use crate::model::{
    check_view, plain_failure, result_view, CandidateView, Deadline, Error, ErrorKind, ErrorView, EventView,
    LinkView, OutputView, Record, RecordView, SourceLink, State, StateView, StoredEvent,
    SCHEDULE_URL,
};
use crate::order::{inserted, is_ordered, law_order_forgets_order, law_ordered, ordered};
use crate::reading::{lines_of, unfolded};
use crate::state::{
    have_uids, is_sound_record, law_accepted_states, state_problem, validate_state,
};
use crate::text::{
    concat, concat3, decimal, decimal_text, has_part, is_before, is_digit, join, joined, law_joined,
    same_text, stands_at, text_before, views,
};
use crate::validate::{law_accepted_event, model_verdict};

verus! {

/// The line of a link in a description: its text and its address, or the address alone.
pub open spec fn link_line(link: LinkView) -> Seq<char> {
    if link.text.len() == 0 {
        link.url
    } else {
        link.text + ": "@ + link.url
    }
}

/// The lines of links in a description.
pub open spec fn link_lines(links: Seq<LinkView>) -> Seq<Seq<char>> {
    links.map_values(|link: LinkView| link_line(link))
}

/// The parts of a description: the body, the schedule text, the links where there are any, and
/// the page of the schedule.
pub open spec fn description_parts(record: RecordView, event: EventView) -> Seq<Seq<char>> {
    let start = seq![event.body, "Original schedule text:\n"@ + record.source_text];
    let links = if record.links.len() > 0 {
        seq![joined(link_lines(record.links), "\n"@)]
    } else {
        seq![]
    };
    start + links + seq!["Course schedule:\n"@ + SCHEDULE_URL@]
}

/// The description of an event.
pub open spec fn description_of(record: RecordView, event: EventView) -> Seq<char> {
    joined(description_parts(record, event), "\n\n"@)
}

/// Writes the lines of links.
fn write_link_lines(links: &Vec<SourceLink>) -> (r: Vec<String>)
    ensures
        views(r@) == link_lines(views(links@)),
{
    let ghost all = link_lines(views(links@));
    let mut lines: Vec<String> = Vec::new();
    let mut i: usize = 0;
    while i < links.len()
        invariant
            all == link_lines(views(links@)),
            i <= links@.len(),
            views(lines@) =~= all.take(i as int),
        decreases links@.len() - i,
    {
        let ghost before = views(lines@);
        let link: &SourceLink = &links[i];
        let line: String = if link.text.as_str().is_empty() {
            link.url.clone()
        } else {
            concat3(link.text.as_str(), ": ", link.url.as_str())
        };
        assert(all[i as int] == line@);
        lines.push(line);
        assert(views(lines@) =~= before.push(all[i as int]));
        i = i + 1;
    }
    assert(all.take(i as int) =~= all);
    lines
}

/// Writes the description of an event.
pub fn description(record: &Record, event: &StoredEvent) -> (r: String)
    ensures
        r@ == description_of(record@, event@),
{
    let mut parts: Vec<String> = Vec::new();
    parts.push(event.body.clone());
    parts.push(concat("Original schedule text:\n", record.source_text.as_str()));
    if record.links.len() > 0 {
        let lines: Vec<String> = write_link_lines(&record.links);
        parts.push(join(&lines, "\n"));
    }
    parts.push(concat("Course schedule:\n", SCHEDULE_URL));
    assert(views(parts@) =~= description_parts(record@, event@));
    join(&parts, "\n\n")
}

/// The first link with an identifier.
pub open spec fn link_with_id(links: Seq<LinkView>, id: Seq<char>) -> Option<LinkView>
    decreases links.len(),
{
    if links.len() == 0 {
        None
    } else if links[0].id == id {
        Some(links[0])
    } else {
        link_with_id(links.skip(1), id)
    }
}

/// The link that an event leads to: the first that it names, else the first of its item.
pub open spec fn primary_link_of(links: Seq<LinkView>, link_ids: Seq<Seq<char>>) -> Option<
    LinkView,
> {
    let named = if link_ids.len() > 0 {
        link_with_id(links, link_ids[0])
    } else {
        None
    };
    match named {
        Some(link) => Some(link),
        None => if links.len() > 0 {
            Some(links[0])
        } else {
            None
        },
    }
}

/// Finds the first link with an identifier.
fn find_link<'a>(links: &'a Vec<SourceLink>, id: &str) -> (r: Option<&'a SourceLink>)
    ensures
        match r {
            Some(link) => link_with_id(views(links@), id@) == Some(link@),
            None => link_with_id(views(links@), id@) is None,
        },
{
    let ghost all = views(links@);
    let mut i: usize = 0;
    assert(all.skip(0) =~= all);
    while i < links.len()
        invariant
            all == views(links@),
            i <= links@.len(),
            link_with_id(all, id@) == link_with_id(all.skip(i as int), id@),
        decreases links@.len() - i,
    {
        assert(all.skip(i as int)[0] == links@[i as int]@);
        assert(all.skip(i as int).skip(1) =~= all.skip(i + 1));
        if same_text(links[i].id.as_str(), id) {
            return Some(&links[i]);
        }
        i = i + 1;
    }
    None
}

/// Finds the link that an event leads to.
pub fn primary_link<'a>(record: &'a Record, event: &StoredEvent) -> (r: Option<&'a SourceLink>)
    ensures
        match r {
            Some(link) => primary_link_of(record@.links, event@.link_ids) == Some(link@),
            None => primary_link_of(record@.links, event@.link_ids) is None,
        },
{
    if event.link_ids.len() > 0 {
        assert(event@.link_ids[0] == event.link_ids@[0]@);
        match find_link(&record.links, event.link_ids[0].as_str()) {
            Some(link) => return Some(link),
            None => {},
        }
    }
    if record.links.len() > 0 {
        assert(record@.links[0] == record.links@[0]@);
        Some(&record.links[0])
    } else {
        None
    }
}

/// A property that holds a day.
pub open spec fn date_property(key: Seq<char>, date: Date) -> PropertyView {
    PropertyView { key, value: compact_date(date), parameters: seq![("VALUE"@, "DATE"@)] }
}

/// The moment of a deadline at a local time, where there is exactly one.
pub open spec fn moment_of(deadline: Deadline) -> Option<DateTime> {
    match deadline {
        Deadline::AllDay { .. } => None,
        Deadline::Timed { local } => los_angeles_utc(local),
    }
}

/// The properties of a deadline: a day that ends with the next one, or a moment in UTC.
pub open spec fn deadline_properties(deadline: Deadline, moment: Option<DateTime>) -> Result<
    Seq<PropertyView>,
    ErrorView,
> {
    match deadline {
        Deadline::AllDay { date } => match date.successor() {
            None => Err(plain_failure(ErrorKind::DeadlineOverflow)),
            Some(next) => Ok(
                seq![date_property("DTSTART"@, date), date_property("DTEND"@, next)],
            ),
        },
        Deadline::Timed { .. } => match moment {
            None => Err(plain_failure(ErrorKind::NotUniqueLocalTime)),
            Some(moment) => Ok(seq![plain_property("DTSTART"@, compact_stamp(moment))]),
        },
    }
}

/// The properties of an event but for those of its deadline.
pub open spec fn detail_properties(record: RecordView, event: EventView) -> Seq<PropertyView> {
    let stamp = compact_stamp(record.updated_at);
    let start = seq![
        plain_property("UID"@, record.uid),
        plain_property("DTSTAMP"@, stamp),
        plain_property("LAST-MODIFIED"@, stamp),
        plain_property("SEQUENCE"@, decimal_text(record.sequence as nat)),
        plain_property("SUMMARY"@, event.title),
        plain_property("DESCRIPTION"@, description_of(record, event)),
    ];
    match primary_link_of(record.links, event.link_ids) {
        Some(link) => start.push(plain_property("URL"@, link.url)),
        None => start,
    }
}

/// The properties of the event of a record, where the moment of its deadline is known.
pub open spec fn event_properties_at(record: RecordView, moment: Option<DateTime>) -> Result<
    Seq<PropertyView>,
    ErrorView,
> {
    match record.event {
        None => Err(plain_failure(ErrorKind::ActiveWithoutEvent)),
        Some(event) => match deadline_properties(event.deadline, moment) {
            Err(error) => Err(error),
            Ok(more) => Ok(detail_properties(record, event) + more),
        },
    }
}

/// The properties of the event of a record.
pub open spec fn event_properties(record: RecordView) -> Result<Seq<PropertyView>, ErrorView> {
    event_properties_at(record, moment_of(record.event->0.deadline))
}

/// Whether the texts of the event of a record can be folded into lines.
pub open spec fn is_renderable(record: RecordView) -> bool {
    record.event matches Some(event) ==> {
        &&& folds(content_line(plain_property("SUMMARY"@, event.title)))
        &&& folds(content_line(plain_property("DESCRIPTION"@, description_of(record, event))))
        &&& primary_link_of(record.links, event.link_ids) matches Some(link) ==> folds(
            content_line(plain_property("URL"@, link.url)),
        )
    }
}

/// Whether the texts of all active events can be folded into lines.
pub open spec fn can_be_written(state: StateView) -> bool {
    forall|i: int|
        0 <= i < state.records.len() && (#[trigger] state.records[i]).active ==> is_renderable(
            state.records[i],
        )
}

/// Tells whether the texts of the event of a record can be folded into lines.
fn check_record(record: &Record) -> (r: bool)
    ensures
        r == is_renderable(record@),
{
    match &record.event {
        None => true,
        Some(event) => {
            if !can_fold_property("SUMMARY", event.title.as_str()) {
                return false;
            }
            let text: String = description(record, event);
            if !can_fold_property("DESCRIPTION", text.as_str()) {
                return false;
            }
            match primary_link(record, event) {
                Some(link) => can_fold_property("URL", link.url.as_str()),
                None => true,
            }
        },
    }
}

/// Tells whether the texts of all active events can be folded into lines.
pub fn can_write(state: &State) -> (r: bool)
    ensures
        r == can_be_written(state@),
{
    let ghost all = state@.records;
    let mut i: usize = 0;
    while i < state.records.len()
        invariant
            all == state@.records,
            i <= state.records@.len(),
            forall|k: int| 0 <= k < i && (#[trigger] all[k]).active ==> is_renderable(all[k]),
        decreases state.records@.len() - i,
    {
        assert(all[i as int] == state.records@[i as int]@);
        if state.records[i].active && !check_record(&state.records[i]) {
            return false;
        }
        i = i + 1;
    }
    true
}

/// A power of ten.
spec fn tens(count: nat) -> nat
    decreases count,
{
    if count == 0 {
        1
    } else {
        10 * tens((count - 1) as nat)
    }
}

/// A number below a power of ten has no more digits than that, all of them plain.
proof fn lemma_decimal(n: nat, count: nat)
    requires
        n < tens(count),
        count > 0,
    ensures
        decimal_text(n).len() <= count,
        is_plain(decimal_text(n)),
    decreases count,
{
    if n >= 10 {
        assert(tens(0) == 1);
        lemma_decimal(n / 10, (count - 1) as nat);
    }
}

/// A padded number is plain and no longer than its digits or its width.
proof fn lemma_padded(n: nat, width: nat, count: nat)
    requires
        n < tens(count),
        0 < count,
        width <= count,
    ensures
        padded(n, width).len() <= count,
        is_plain(padded(n, width)),
{
    lemma_decimal(n, count);
}

/// Plain texts one after the other are plain.
proof fn lemma_plain_concat(a: Seq<char>, b: Seq<char>)
    requires
        is_plain(a),
        is_plain(b),
    ensures
        is_plain(a + b),
{
}

/// A day in digits is plain and short.
proof fn lemma_compact_date(date: Date)
    requires
        date.valid(),
    ensures
        is_plain(compact_date(date)),
        compact_date(date).len() <= 11,
{
    reveal_with_fuel(tens, 7);
    let year = date.year as int;
    if year >= 0 {
        lemma_padded(year as nat, 4, 6);
    } else {
        lemma_padded((-year) as nat, 4, 6);
    }
    lemma_padded(date.month as nat, 2, 2);
    lemma_padded(date.day as nat, 2, 2);
    assert(is_plain(seq!['+']) && is_plain(seq!['-']));
    assert(is_plain(year_text(year)));
    assert(year_text(year).len() <= 7);
    lemma_plain_concat(year_text(year), padded(date.month as nat, 2));
    lemma_plain_concat(
        year_text(year) + padded(date.month as nat, 2),
        padded(date.day as nat, 2),
    );
}

/// A stamp is plain and short.
proof fn lemma_compact_stamp(moment: DateTime)
    requires
        moment.valid(),
    ensures
        is_plain(compact_stamp(moment)),
        compact_stamp(moment).len() <= 19,
{
    reveal_with_fuel(tens, 3);
    lemma_compact_date(moment.date);
    let seconds = (moment.time.second + moment.time.nanosecond / 1_000_000_000) as nat;
    lemma_padded(moment.time.hour as nat, 2, 2);
    lemma_padded(moment.time.minute as nat, 2, 2);
    lemma_padded(seconds, 2, 2);
    let day = compact_date(moment.date);
    let hour = day + seq!['T'] + padded(moment.time.hour as nat, 2);
    let minute = hour + padded(moment.time.minute as nat, 2);
    lemma_plain_concat(day, seq!['T']);
    lemma_plain_concat(day + seq!['T'], padded(moment.time.hour as nat, 2));
    lemma_plain_concat(hour, padded(moment.time.minute as nat, 2));
    lemma_plain_concat(minute, padded(seconds, 2));
    lemma_plain_concat(minute + padded(seconds, 2), seq!['Z']);
}

/// A revision number is plain and short.
proof fn lemma_sequence(sequence: u32)
    ensures
        is_plain(decimal_text(sequence as nat)),
        decimal_text(sequence as nat).len() <= 10,
{
    reveal_with_fuel(tens, 11);
    lemma_decimal(sequence as nat, 10);
}

/// Plain text is ASCII.
proof fn lemma_plain_is_ascii(text: Seq<char>)
    requires
        is_plain(text),
    ensures
        is_ascii_chars(text),
{
    assert forall|i: int| 0 <= i < text.len() implies '\0' <= #[trigger] text[i] <= '\u{7f}' by {
        assert(is_plain_char(text[i]));
    }
}

/// An identifier is ASCII.
proof fn lemma_uid_is_ascii(uid: Seq<char>)
    requires
        is_uid(uid),
    ensures
        is_ascii_chars(uid),
{
    reveal_strlit("@chronatello.lomzem.github.io");
    let tail = uid.skip(64);
    assert(is_ascii_chars(tail));
    assert forall|i: int| 0 <= i < uid.len() implies '\0' <= #[trigger] uid[i] <= '\u{7f}' by {
        if i < 64 {
            assert(uid.take(64)[i] == uid[i]);
            assert(is_digit(uid.take(64)[i]) || 'a' <= uid.take(64)[i] <= 'f');
        } else {
            assert(tail[i - 64] == uid[i]);
        }
    }
}

/// The names of properties are short, and differ from each other.
proof fn lemma_keys()
    ensures
        "UID"@.len() == 3,
        "URL"@.len() == 3,
        "DTEND"@.len() == 5,
        "DTSTAMP"@.len() == 7,
        "DTSTART"@.len() == 7,
        "SUMMARY"@.len() == 7,
        "SEQUENCE"@.len() == 8,
        "DESCRIPTION"@.len() == 11,
        "LAST-MODIFIED"@.len() == 13,
        "VALUE"@.len() == 5,
        "DATE"@.len() == 4,
        ";"@.len() == 1,
        "="@.len() == 1,
        ":"@.len() == 1,
        "UID"@ != "URL"@,
        "DTSTAMP"@ != "DTSTART"@,
        "DTSTAMP"@ != "SUMMARY"@,
        "DTSTART"@ != "SUMMARY"@,
{
    reveal_strlit("UID");
    reveal_strlit("DTSTAMP");
    reveal_strlit("LAST-MODIFIED");
    reveal_strlit("SEQUENCE");
    reveal_strlit("SUMMARY");
    reveal_strlit("DESCRIPTION");
    reveal_strlit("URL");
    reveal_strlit("DTSTART");
    reveal_strlit("DTEND");
    reveal_strlit("VALUE");
    reveal_strlit("DATE");
    reveal_strlit(";");
    reveal_strlit("=");
    reveal_strlit(":");
    assert("UID"@[1] != "URL"@[1]);
    assert("DTSTAMP"@[5] != "DTSTART"@[5]);
    assert("DTSTAMP"@[0] != "SUMMARY"@[0]);
    assert("DTSTART"@[0] != "SUMMARY"@[0]);
}

/// What stands in the text of a calendar of an event: its stamps, its revision number, the day
/// that it is due, up to the next, or the moment in UTC, and its title and its link where they
/// make one line each.
pub open spec fn shows(text: Seq<char>, record: RecordView) -> bool {
    let stamp = compact_stamp(record.updated_at);
    let event = record.event->0;
    let title = plain_property("SUMMARY"@, event.title);
    &&& has_line(text, property_line(plain_property("DTSTAMP"@, stamp)))
    &&& has_line(text, property_line(plain_property("LAST-MODIFIED"@, stamp)))
    &&& has_line(
        text,
        property_line(plain_property("SEQUENCE"@, decimal_text(record.sequence as nat))),
    )
    &&& is_short(title) ==> has_line(text, property_line(title))
    &&& match primary_link_of(record.links, event.link_ids) {
        Some(link) => {
            let property = plain_property("URL"@, link.url);
            is_short(property) ==> has_line(text, property_line(property))
        },
        None => true,
    }
    &&& match event.deadline {
        Deadline::AllDay { date } => {
            &&& has_line(text, property_line(date_property("DTSTART"@, date)))
            &&& has_line(text, property_line(date_property("DTEND"@, date.successor()->0)))
        },
        Deadline::Timed { local } => {
            let moment = los_angeles_utc(local)->0;
            &&& has_line(text, property_line(plain_property("DTSTART"@, compact_stamp(moment))))
            &&& in_term(local.date) ==> Some(moment) == term_utc(local)
        },
    }
}

/// Whether a moment that a local time in the term names is the one of its zone.
pub open spec fn agrees_with_term(deadline: Deadline) -> bool {
    match deadline {
        Deadline::AllDay { .. } => true,
        Deadline::Timed { local } => in_term(local.date) ==> los_angeles_utc(local) == term_utc(
            local,
        ),
    }
}

/// Whether the moment of a deadline is one that the calendar has.
pub open spec fn has_valid_moment(deadline: Deadline) -> bool {
    match deadline {
        Deadline::AllDay { date } => date.successor() matches Some(next) && next.valid(),
        Deadline::Timed { local } => los_angeles_utc(local) matches Some(moment) && moment.valid(),
    }
}

/// Makes a property that holds a day.
fn make_date_property(key: &str, date: Date) -> (r: Property)
    requires
        date.valid(),
    ensures
        r@ == date_property(key@, date),
{
    let mut parameters: Vec<(String, String)> = Vec::new();
    parameters.push(("VALUE".to_owned(), "DATE".to_owned()));
    let r = Property { key: key.to_owned(), value: format_date(date, "%Y%m%d"), parameters };
    assert(r@.parameters =~= seq![("VALUE"@, "DATE"@)]);
    r
}

/// Makes the properties of a deadline.
fn make_deadline_properties(deadline: Deadline, moment: Option<DateTime>) -> (r: Result<
    Vec<Property>,
    Error,
>)
    requires
        deadline.valid(),
        moment matches Some(moment) ==> moment.valid(),
    ensures
        match r {
            Ok(properties) => deadline_properties(deadline, moment) == Ok::<_, ErrorView>(
                views(properties@),
            ),
            Err(error) => deadline_properties(deadline, moment) == Err::<Seq<PropertyView>, _>(
                error@,
            ),
        },
{
    let mut properties: Vec<Property> = Vec::new();
    match deadline {
        Deadline::AllDay { date } => match next_day(date) {
            None => Err(Error::plain(ErrorKind::DeadlineOverflow)),
            Some(next) => {
                assert(next.valid());
                properties.push(make_date_property("DTSTART", date));
                properties.push(make_date_property("DTEND", next));
                assert(views(properties@) =~= seq![
                    date_property("DTSTART"@, date),
                    date_property("DTEND"@, next),
                ]);
                Ok(properties)
            },
        },
        Deadline::Timed { .. } => match moment {
            None => Err(Error::plain(ErrorKind::NotUniqueLocalTime)),
            Some(moment) => {
                let stamp: String = format_stamp(moment, "%Y%m%dT%H%M%SZ");
                properties.push(make_property("DTSTART", stamp.as_str()));
                assert(views(properties@) =~= seq![
                    plain_property("DTSTART"@, compact_stamp(moment)),
                ]);
                Ok(properties)
            },
        },
    }
}

/// Makes the properties of an event but for those of its deadline.
fn make_detail_properties(record: &Record, event: &StoredEvent) -> (r: Vec<Property>)
    requires
        record.updated_at.valid(),
    ensures
        views(r@) == detail_properties(record@, event@),
{
    let stamp: String = format_stamp(record.updated_at, "%Y%m%dT%H%M%SZ");
    let number: String = decimal(record.sequence as u64);
    let text: String = description(record, event);
    let mut properties: Vec<Property> = Vec::new();
    properties.push(make_property("UID", record.uid.as_str()));
    properties.push(make_property("DTSTAMP", stamp.as_str()));
    properties.push(make_property("LAST-MODIFIED", stamp.as_str()));
    properties.push(make_property("SEQUENCE", number.as_str()));
    properties.push(make_property("SUMMARY", event.title.as_str()));
    properties.push(make_property("DESCRIPTION", text.as_str()));
    match primary_link(record, event) {
        Some(link) => {
            properties.push(make_property("URL", link.url.as_str()));
        },
        None => {},
    }
    assert(views(properties@) =~= detail_properties(record@, event@));
    properties
}

/// The properties of an event can be written, and those that `shows` speaks of make one line
/// each.
proof fn lemma_event_properties(record: RecordView, properties: Seq<PropertyView>)
    requires
        event_properties(record) == Ok::<_, ErrorView>(properties),
        record.dated(),
        is_renderable(record),
        is_uid(record.uid),
        has_valid_moment(record.event->0.deadline),
    ensures
        is_whole_event(properties),
        is_one_line(properties, 1),
        is_one_line(properties, 2),
        is_one_line(properties, 3),
        is_one_line(properties, properties.len() - 1),
        record.event->0.deadline is AllDay ==> is_one_line(properties, properties.len() - 2),
        is_short(properties[4]) ==> is_one_line(properties, 4),
        primary_link_of(record.links, record.event->0.link_ids) is Some && is_short(properties[6])
            ==> is_one_line(properties, 6),
{
    let event = record.event->0;
    let details = detail_properties(record, event);
    let more = deadline_properties(event.deadline, moment_of(event.deadline))->Ok_0;
    assert(properties == details + more);
    lemma_keys();
    lemma_compact_stamp(record.updated_at);
    lemma_sequence(record.sequence);
    lemma_plain_is_simple(compact_stamp(record.updated_at));
    lemma_plain_is_simple(decimal_text(record.sequence as nat));
    lemma_plain_is_ascii(compact_stamp(record.updated_at));
    lemma_plain_is_ascii(decimal_text(record.sequence as nat));
    lemma_uid_is_ascii(record.uid);
    match event.deadline {
        Deadline::AllDay { date } => {
            let next = date.successor()->0;
            lemma_compact_date(date);
            lemma_compact_date(next);
            lemma_plain_is_simple(compact_date(date));
            lemma_plain_is_simple(compact_date(next));
            lemma_plain_is_ascii(compact_date(date));
            lemma_plain_is_ascii(compact_date(next));
        },
        Deadline::Timed { local } => {
            let moment = los_angeles_utc(local)->0;
            lemma_compact_stamp(moment);
            lemma_plain_is_simple(compact_stamp(moment));
            lemma_plain_is_ascii(compact_stamp(moment));
        },
    }
    assert(are_writable(properties)) by {
        assert forall|i: int| 0 <= i < properties.len() implies is_writable(
            #[trigger] properties[i],
        ) by {
            if i >= details.len() {
                assert(properties[i] == more[i - details.len()]);
                lemma_ascii_is_writable(properties[i]);
            } else {
                assert(properties[i] == details[i]);
                if i < 4 {
                    lemma_ascii_is_writable(properties[i]);
                }
            }
        }
    }
    assert(properties[0].key == "UID"@);
    assert(properties[1].key == "DTSTAMP"@);
    assert(properties[2].key == "LAST-MODIFIED"@);
    assert(properties[3].key == "SEQUENCE"@);
    assert(properties[4].key == "SUMMARY"@);
    assert(properties[5].key == "DESCRIPTION"@);
    assert forall|i: int| 6 <= i < properties.len() implies (#[trigger] properties[i]).key
        == "URL"@ && i == 6 && i < details.len() || properties[i].key == "DTSTART"@
        || properties[i].key == "DTEND"@ by {
        if i >= details.len() {
            assert(properties[i] == more[i - details.len()]);
        } else {
            assert(properties[i] == details[i]);
        }
    }
    assert(properties[properties.len() - 1] == more[more.len() - 1]);
    assert(properties[details.len() as int] == more[0]);
}

/// Whether the link that the event of a record leads to has no line break.
pub open spec fn has_unbroken_link(record: RecordView) -> bool {
    primary_link_of(record.links, record.event->0.link_ids) matches Some(link)
        ==> !link.url.contains('\n')
}

/// Whether the links that the active events of a state lead to have no line break.
pub open spec fn has_unbroken_links(state: StateView) -> bool {
    forall|i: int|
        0 <= i < state.records.len() && (#[trigger] state.records[i]).active ==> has_unbroken_link(
            state.records[i],
        )
}

/// The properties of an event have names of their own, and lines without a line break.
proof fn lemma_event_is_unbroken(record: RecordView, properties: Seq<PropertyView>)
    requires
        event_properties(record) == Ok::<_, ErrorView>(properties),
        is_whole_event(properties),
        record.dated(),
        has_valid_moment(record.event->0.deadline),
        has_unbroken_link(record),
    ensures
        are_unbroken(properties),
        have_own_keys(properties),
{
    let event = record.event->0;
    let details = detail_properties(record, event);
    let more = deadline_properties(event.deadline, moment_of(event.deadline))->Ok_0;
    assert(properties == details + more);
    lemma_keys();
    lemma_compact_stamp(record.updated_at);
    lemma_sequence(record.sequence);
    match event.deadline {
        Deadline::AllDay { date } => {
            lemma_compact_date(date);
            lemma_compact_date(date.successor()->0);
        },
        Deadline::Timed { local } => {
            lemma_compact_stamp(los_angeles_utc(local)->0);
        },
    }
    assert forall|text: Seq<char>| #[trigger] is_plain(text) implies !text.contains('\n') by {
        assert forall|i: int| 0 <= i < text.len() implies text[i] != '\n' by {
            assert(is_plain_char(text[i]));
        }
    }
    assert forall|i: int| 0 <= i < properties.len() implies !content_line(
        #[trigger] properties[i],
    ).contains('\n') by {
        if i >= details.len() {
            assert(properties[i] == more[i - details.len()]);
        } else {
            assert(properties[i] == details[i]);
        }
        lemma_unbroken_line(properties[i]);
    }
    assert(properties[0].key == "UID"@);
    assert(properties[1].key == "DTSTAMP"@);
    assert(properties[2].key == "LAST-MODIFIED"@);
    assert(properties[3].key == "SEQUENCE"@);
    assert(properties[4].key == "SUMMARY"@);
    assert(properties[5].key == "DESCRIPTION"@);
    assert forall|i: int| 6 <= i < properties.len() implies (#[trigger] properties[i]).key
        == "URL"@ && i == 6 && i < details.len() || i == details.len() && properties[i].key
        == "DTSTART"@ || i == details.len() + 1 && properties[i].key == "DTEND"@ by {
        if i >= details.len() {
            assert(properties[i] == more[i - details.len()]);
        } else {
            assert(properties[i] == details[i]);
        }
    }
}

/// Makes the properties of the event of a record, where the moment of its deadline is known.
pub fn make_event_at(record: &Record, moment: Option<DateTime>) -> (r: Result<Vec<Property>, Error>)
    requires
        record@.dated(),
        moment matches Some(moment) ==> moment.valid(),
    ensures
        match r {
            Ok(properties) => event_properties_at(record@, moment) == Ok::<_, ErrorView>(
                views(properties@),
            ),
            Err(error) => event_properties_at(record@, moment) == Err::<Seq<PropertyView>, _>(
                error@,
            ),
        },
{
    match &record.event {
        None => Err(Error::plain(ErrorKind::ActiveWithoutEvent)),
        Some(event) => match make_deadline_properties(event.deadline, moment) {
            Err(error) => Err(error),
            Ok(more) => {
                let mut properties: Vec<Property> = make_detail_properties(record, event);
                let mut more: Vec<Property> = more;
                let ghost details = views(properties@);
                let ghost rest = views(more@);
                properties.append(&mut more);
                assert(views(properties@) =~= details + rest);
                Ok(properties)
            },
        },
    }
}

/// Makes the properties of the event of a record.
fn make_event(record: &Record) -> (r: Result<Vec<Property>, Error>)
    requires
        record@.dated(),
    ensures
        match r {
            Ok(properties) => event_properties(record@) == Ok::<_, ErrorView>(views(properties@)),
            Err(error) => event_properties(record@) == Err::<Seq<PropertyView>, _>(error@),
        },
        r matches Ok(properties) ==> {
            &&& has_valid_moment(record@.event->0.deadline)
            &&& agrees_with_term(record@.event->0.deadline)
        },
{
    let moment: Option<DateTime> = match &record.event {
        Some(event) => match event.deadline {
            Deadline::Timed { local } => los_angeles_to_utc(local),
            Deadline::AllDay { .. } => None,
        },
        None => None,
    };
    make_event_at(record, moment)
}

/// The active ones among records.
pub open spec fn active_records(records: Seq<RecordView>) -> Seq<RecordView>
    decreases records.len(),
{
    if records.len() == 0 {
        seq![]
    } else if records.last().active {
        active_records(records.drop_last()).push(records.last())
    } else {
        active_records(records.drop_last())
    }
}

/// Records are ordered by their identifiers.
pub open spec fn by_uid() -> spec_fn(RecordView) -> Seq<char> {
    |record: RecordView| record.uid
}

/// The events that records make, in order, or the first failure.
pub open spec fn events_of(records: Seq<RecordView>) -> Result<Seq<Seq<PropertyView>>, ErrorView>
    decreases records.len(),
{
    if records.len() == 0 {
        Ok(seq![])
    } else {
        match events_of(records.drop_last()) {
            Err(error) => Err(error),
            Ok(events) => match event_properties(records.last()) {
                Err(error) => Err(error),
                Ok(event) => Ok(events.push(event)),
            },
        }
    }
}

/// The properties of the calendar itself.
pub open spec fn calendar_properties() -> Seq<PropertyView> {
    seq![
        plain_property("VERSION"@, "2.0"@),
        plain_property("CALSCALE"@, "GREGORIAN"@),
        plain_property("PRODID"@, "-//Lomzem//Chronatello//EN"@),
        plain_property("X-WR-CALNAME"@, "DATA 385 Fall 2026"@),
    ]
}

/// The text of the calendar of a state: its active events, ordered by their identifiers.
pub open spec fn calendar_of(state: StateView) -> Result<Seq<char>, ErrorView> {
    match state_problem(state) {
        Some(error) => Err(error),
        None => match events_of(ordered(active_records(state.records), by_uid())) {
            Err(error) => Err(error),
            Ok(events) => Ok(rendered(calendar_properties(), events)),
        },
    }
}

/// The records at positions.
spec fn picked(all: Seq<RecordView>, order: Seq<usize>) -> Seq<RecordView> {
    order.map_values(|at: usize| all[at as int])
}

/// Whether positions are ones of a list.
spec fn are_positions(order: Seq<usize>, count: nat) -> bool {
    forall|k: int| 0 <= k < order.len() ==> (#[trigger] order[k]) < count
}

/// Puts the position of a record into a list that is ordered by identifiers.
fn insert_position(order: &mut Vec<usize>, records: &Vec<Record>, at: usize)
    requires
        are_positions(old(order)@, records@.len()),
        at < records@.len(),
    ensures
        are_positions(final(order)@, records@.len()),
        picked(views(records@), final(order)@) == inserted(
            picked(views(records@), old(order)@),
            views(records@)[at as int],
            by_uid(),
        ),
{
    let ghost all = views(records@);
    let ghost item = all[at as int];
    let ghost before = picked(all, order@);
    let mut to: usize = order.len();
    assert(before.take(to as int) =~= before);
    assert(inserted(before, item, by_uid()) =~= inserted(before.take(to as int), item, by_uid())
        + before.skip(to as int));
    while to > 0 && is_before(records[at].uid.as_str(), records[order[to - 1]].uid.as_str())
        invariant
            to <= order@.len(),
            at < records@.len(),
            are_positions(order@, records@.len()),
            all == views(records@),
            item == all[at as int],
            before == picked(all, order@),
            inserted(before, item, by_uid()) == inserted(before.take(to as int), item, by_uid())
                + before.skip(to as int),
        decreases to,
    {
        let ghost front = before.take(to as int);
        assert(front.last() == all[order@[to - 1] as int]);
        assert(front.drop_last() =~= before.take(to - 1));
        assert(inserted(before.take(to - 1), item, by_uid()).push(before[to - 1]) + before.skip(
            to as int,
        ) =~= inserted(before.take(to - 1), item, by_uid()) + before.skip(to - 1));
        to = to - 1;
    }
    let ghost front = before.take(to as int);
    let ghost old_order = order@;
    assert(to > 0 ==> front.last() == all[order@[to - 1] as int]);
    assert(inserted(front, item, by_uid()) == front.push(item));
    order.insert(to, at);
    assert forall|k: int| 0 <= k < order@.len() implies (#[trigger] order@[k]) < records@.len() by {
        if k < to {
            assert(order@[k] == old_order[k]);
        } else if k > to {
            assert(order@[k] == old_order[k - 1]);
        }
    }
    assert(picked(all, order@) =~= front.push(item) + before.skip(to as int));
}

/// Lists the positions of the active records, ordered by identifiers.
fn order_active(records: &Vec<Record>) -> (r: Vec<usize>)
    ensures
        are_positions(r@, records@.len()),
        picked(views(records@), r@) == ordered(active_records(views(records@)), by_uid()),
{
    let ghost all = views(records@);
    let mut order: Vec<usize> = Vec::new();
    let mut i: usize = 0;
    assert(picked(all, order@) =~= seq![]);
    while i < records.len()
        invariant
            all == views(records@),
            i <= records@.len(),
            are_positions(order@, records@.len()),
            picked(all, order@) == ordered(active_records(all.take(i as int)), by_uid()),
        decreases records@.len() - i,
    {
        let ghost next = all.take(i + 1);
        assert(next.drop_last() =~= all.take(i as int));
        assert(next.last() == records@[i as int]@);
        if records[i].active {
            let ghost before = active_records(all.take(i as int));
            assert(before.push(all[i as int]).drop_last() =~= before);
            insert_position(&mut order, records, i);
        }
        i = i + 1;
    }
    assert(all.take(i as int) =~= all);
    order
}

/// An active record is among the active ones.
proof fn lemma_active_record(records: Seq<RecordView>, i: int)
    requires
        0 <= i < records.len(),
        records[i].active,
    ensures
        active_records(records).contains(records[i]),
    decreases records.len(),
{
    let front = records.drop_last();
    let before = active_records(front);
    let all = active_records(records);
    if i == records.len() - 1 {
        assert(all[before.len() as int] == records[i]);
    } else {
        lemma_active_record(front, i);
        assert(front[i] == records[i]);
        let k = choose|k: int| 0 <= k < before.len() && before[k] == records[i];
        assert(all[k] == records[i]);
    }
}

/// The active ones are active records of the list.
proof fn lemma_active_records(records: Seq<RecordView>)
    ensures
        forall|k: int|
            0 <= k < active_records(records).len() ==> (#[trigger] active_records(records)[k]).active
                && records.contains(active_records(records)[k]),
    decreases records.len(),
{
    if records.len() > 0 {
        let front = records.drop_last();
        lemma_active_records(front);
        let before = active_records(front);
        let all = active_records(records);
        assert forall|k: int| 0 <= k < all.len() implies (#[trigger] all[k]).active
            && records.contains(all[k]) by {
            if k < before.len() {
                assert(all[k] == before[k]);
                let m = choose|m: int| 0 <= m < front.len() && front[m] == before[k];
                assert(records[m] == all[k]);
            } else {
                assert(records[records.len() - 1] == all[k]);
            }
        }
    }
}

/// The calendar holds each active record of the state exactly as often as the state does, and no
/// other, in the order of their identifiers.
pub proof fn law_events_of_calendar(records: Seq<RecordView>)
    ensures
        is_ordered(ordered(active_records(records), by_uid()), by_uid()),
        forall|i: int, j: int|
            0 <= i < j < ordered(active_records(records), by_uid()).len() ==> !text_before(
                (#[trigger] ordered(active_records(records), by_uid())[j]).uid,
                (#[trigger] ordered(active_records(records), by_uid())[i]).uid,
            ),
        ordered(active_records(records), by_uid()).to_multiset() == active_records(
            records,
        ).to_multiset(),
        forall|record: RecordView| #[trigger]
            ordered(active_records(records), by_uid()).contains(record) <==> record.active
                && records.contains(record),
{
    broadcast use vstd::seq_lib::group_to_multiset_ensures;

    let active = active_records(records);
    let all = ordered(active, by_uid());
    law_ordered(active, by_uid());
    lemma_active_records(records);
    assert forall|record: RecordView| #[trigger] all.contains(record) <==> record.active
        && records.contains(record) by {
        if all.contains(record) {
            assert(active.to_multiset().contains(record));
            assert(active.contains(record));
            let k = choose|k: int| 0 <= k < active.len() && active[k] == record;
            assert(active[k] == record);
        }
        if record.active && records.contains(record) {
            let i = choose|i: int| 0 <= i < records.len() && records[i] == record;
            lemma_active_record(records, i);
            assert(all.to_multiset().contains(record));
        }
    }
}

/// The calendar does not depend on the order of the records, on those that are not active, or on
/// when the state was made: states that are accepted and have the same active records have the
/// same calendar, and it can be written of both or of neither.
pub proof fn law_active_records_decide(state: StateView, other: StateView)
    requires
        state_problem(state) is None,
        state_problem(other) is None,
        active_records(state.records).to_multiset() == active_records(other.records).to_multiset(),
    ensures
        calendar_of(state) == calendar_of(other),
        can_be_written(state) == can_be_written(other),
{
    let active = active_records(state.records);
    law_accepted_states(state);
    lemma_active_records(state.records);
    assert forall|x: RecordView, y: RecordView|
        #![trigger active.contains(x), active.contains(y)]
        active.contains(x) && active.contains(y) && by_uid()(x) == by_uid()(y) implies x == y by {
        let k = choose|k: int| 0 <= k < active.len() && active[k] == x;
        let m = choose|m: int| 0 <= m < active.len() && active[m] == y;
        assert(state.records.contains(active[k]) && state.records.contains(active[m]));
        let i = choose|i: int| 0 <= i < state.records.len() && state.records[i] == x;
        let j = choose|j: int| 0 <= j < state.records.len() && state.records[j] == y;
        assert(i == j) by {
            if i < j {
                assert(state.records[i].uid != state.records[j].uid);
            } else if j < i {
                assert(state.records[j].uid != state.records[i].uid);
            }
        }
    }
    law_order_forgets_order(active, active_records(other.records), by_uid());
    lemma_writable_records(state);
    lemma_writable_records(other);
}

/// A state can be written where each of its active records in order can be.
proof fn lemma_writable_records(state: StateView)
    ensures
        can_be_written(state) <==> forall|record: RecordView| #[trigger]
            ordered(active_records(state.records), by_uid()).contains(record) ==> is_renderable(
                record,
            ),
{
    let all = state.records;
    let active = ordered(active_records(all), by_uid());
    law_events_of_calendar(all);
    if can_be_written(state) {
        assert forall|record: RecordView| #[trigger] active.contains(
            record,
        ) implies is_renderable(record) by {
            let i = choose|i: int| 0 <= i < all.len() && all[i] == record;
            assert(all[i].active);
        }
    }
    if forall|record: RecordView| #[trigger] active.contains(record) ==> is_renderable(record) {
        assert forall|i: int| 0 <= i < all.len() && (#[trigger] all[i]).active implies is_renderable(
            all[i],
        ) by {
            assert(all.contains(all[i]));
            assert(active.contains(all[i]));
        }
    }
}

/// A failure of the first records is the failure of all of them.
proof fn lemma_events_first(records: Seq<RecordView>, at: int)
    requires
        0 <= at <= records.len(),
        events_of(records.take(at)) is Err,
    ensures
        events_of(records) == events_of(records.take(at)),
    decreases records.len() - at,
{
    if at < records.len() {
        assert(records.take(at + 1).drop_last() =~= records.take(at));
        lemma_events_first(records, at + 1);
    } else {
        assert(records.take(at) =~= records);
    }
}

/// Events are made record by record.
proof fn lemma_events_of(records: Seq<RecordView>, events: Seq<Seq<PropertyView>>)
    requires
        events_of(records) == Ok::<_, ErrorView>(events),
    ensures
        events.len() == records.len(),
        forall|k: int|
            0 <= k < records.len() ==> event_properties(#[trigger] records[k]) == Ok::<
                _,
                ErrorView,
            >(events[k]),
    decreases records.len(),
{
    if records.len() > 0 {
        let front = events_of(records.drop_last())->Ok_0;
        lemma_events_of(records.drop_last(), front);
        assert forall|k: int| 0 <= k < records.len() implies event_properties(
            #[trigger] records[k],
        ) == Ok::<_, ErrorView>(events[k]) by {
            if k < records.len() - 1 {
                assert(records.drop_last()[k] == records[k]);
                assert(events[k] == front[k]);
            }
        }
    }
}

/// What a list of events came to, by view.
spec fn events_view(result: Result<Vec<Vec<Property>>, Error>) -> Result<
    Seq<Seq<PropertyView>>,
    ErrorView,
> {
    match result {
        Ok(events) => Ok(event_views(events@)),
        Err(error) => Err(error@),
    }
}

/// Whether the deadline of a record has a moment, and the one of its zone.
spec fn is_ready(record: RecordView) -> bool {
    &&& has_valid_moment(record.event->0.deadline)
    &&& agrees_with_term(record.event->0.deadline)
}

/// Makes the events of the records at positions.
fn make_events(records: &Vec<Record>, order: &Vec<usize>) -> (r: Result<Vec<Vec<Property>>, Error>)
    requires
        are_positions(order@, records@.len()),
        forall|k: int|
            0 <= k < order@.len() ==> (#[trigger] picked(views(records@), order@)[k]).dated(),
    ensures
        events_view(r) == events_of(picked(views(records@), order@)),
        r is Ok ==> forall|k: int|
            0 <= k < order@.len() ==> is_ready(#[trigger] picked(views(records@), order@)[k]),
{
    let ghost all = picked(views(records@), order@);
    let mut events: Vec<Vec<Property>> = Vec::new();
    let mut i: usize = 0;
    assert(event_views(events@) =~= seq![]);
    while i < order.len()
        invariant
            all == picked(views(records@), order@),
            i <= order@.len(),
            i == events@.len(),
            are_positions(order@, records@.len()),
            forall|k: int| 0 <= k < order@.len() ==> (#[trigger] all[k]).dated(),
            events_of(all.take(i as int)) == Ok::<_, ErrorView>(event_views(events@)),
            forall|k: int| 0 <= k < i ==> is_ready(#[trigger] all[k]),
        decreases order@.len() - i,
    {
        let ghost before = event_views(events@);
        let record: &Record = &records[order[i]];
        assert(all[i as int] == record@);
        assert(all.take(i + 1).drop_last() =~= all.take(i as int));
        assert(all.take(i + 1).last() == record@);
        match make_event(record) {
            Err(error) => {
                proof {
                    lemma_events_first(all, i + 1);
                }
                return Err(error);
            },
            Ok(event) => {
                events.push(event);
                assert(event_views(events@) =~= before.push(views(event@)));
            },
        }
        i = i + 1;
    }
    assert(all.take(i as int) =~= all);
    Ok(events)
}

/// The properties without those of a name.
spec fn without_key(properties: Seq<PropertyView>, key: Seq<char>) -> Seq<PropertyView>
    decreases properties.len(),
{
    if properties.len() == 0 {
        seq![]
    } else if properties.last().key == key {
        without_key(properties.drop_last(), key)
    } else {
        without_key(properties.drop_last(), key).push(properties.last())
    }
}

/// Takes away the properties of a name.
fn remove_key(properties: Vec<Property>, key: &str) -> (r: Vec<Property>)
    ensures
        views(r@) == without_key(views(properties@), key@),
{
    let ghost all = views(properties@);
    let mut left: Vec<Property> = Vec::new();
    assert(views(left@) =~= seq![]);
    assert(all.take(0) =~= seq![]);
    for property in it: properties
        invariant
            it.seq() == properties@,
            all == views(properties@),
            views(left@) == without_key(all.take(it.index()), key@),
    {
        let ghost at = it.index();
        let ghost before = views(left@);
        assert(all.take(at + 1).drop_last() =~= all.take(at));
        assert(all.take(at + 1).last() == property@);
        if !same_text(property.key.as_str(), key) {
            left.push(property);
            assert(views(left@) =~= before.push(property@));
        }
    }
    assert(all.take(all.len() as int) =~= all);
    left
}

/// Makes the properties of the calendar itself.
fn make_calendar_properties() -> (r: Vec<Property>)
    ensures
        views(r@) == calendar_properties(),
{
    let defaults: Vec<Property> = default_properties();
    let ghost start = views(defaults@);
    let mut properties: Vec<Property> = remove_key(defaults, "PRODID");
    proof {
        reveal_strlit("VERSION");
        reveal_strlit("PRODID");
        reveal_strlit("CALSCALE");
        assert("VERSION"@.len() != "PRODID"@.len());
        assert("CALSCALE"@.len() != "PRODID"@.len());
        reveal_with_fuel(without_key, 4);
        assert(start.drop_last().drop_last().drop_last() =~= seq![]);
        assert(views(properties@) =~= seq![
            plain_property("VERSION"@, "2.0"@),
            plain_property("CALSCALE"@, "GREGORIAN"@),
        ]);
    }
    properties.push(make_property("PRODID", "-//Lomzem//Chronatello//EN"));
    properties.push(make_property("X-WR-CALNAME", "DATA 385 Fall 2026"));
    assert(views(properties@) =~= calendar_properties());
    properties
}

/// The properties of the calendar can be written.
proof fn lemma_calendar_properties()
    ensures
        are_writable(calendar_properties()),
        are_unbroken(calendar_properties()),
{
    reveal_strlit("VERSION");
    reveal_strlit("2.0");
    reveal_strlit("CALSCALE");
    reveal_strlit("GREGORIAN");
    reveal_strlit("PRODID");
    reveal_strlit("-//Lomzem//Chronatello//EN");
    reveal_strlit("X-WR-CALNAME");
    reveal_strlit("DATA 385 Fall 2026");
    let all = calendar_properties();
    assert forall|i: int| 0 <= i < all.len() implies is_writable(#[trigger] all[i]) by {
        lemma_ascii_is_writable(all[i]);
    }
    assert forall|i: int| 0 <= i < all.len() implies !content_line(#[trigger] all[i]).contains(
        '\n',
    ) by {
        lemma_unbroken_line(all[i]);
    }
}

/// The events of a state: those of its active records, ordered by their identifiers.
pub open spec fn events_in(state: StateView) -> Result<Seq<Seq<PropertyView>>, ErrorView> {
    match state_problem(state) {
        Some(error) => Err(error),
        None => events_of(ordered(active_records(state.records), by_uid())),
    }
}

/// Makes the events of a state.
fn list_events(state: &State) -> (r: Result<Vec<Vec<Property>>, Error>)
    requires
        state@.dated(),
    ensures
        events_view(r) == events_in(state@),
        r is Ok ==> have_uids(state@.records) && forall|k: int|
            0 <= k < ordered(active_records(state@.records), by_uid()).len() ==> is_ready(
                #[trigger] ordered(active_records(state@.records), by_uid())[k],
            ),
{
    match validate_state(state) {
        Err(error) => return Err(error),
        Ok(_) => {},
    }
    let ghost all = state@.records;
    let ghost active = ordered(active_records(all), by_uid());
    let order: Vec<usize> = order_active(&state.records);
    proof {
        law_events_of_calendar(all);
        assert forall|k: int| 0 <= k < order@.len() implies (#[trigger] picked(
            all,
            order@,
        )[k]).dated() by {
            assert(active.contains(active[k]));
            let i = choose|i: int| 0 <= i < all.len() && all[i] == active[k];
            assert(all[i].dated());
        }
    }
    make_events(&state.records, &order)
}

/// What is wrong with a state that has no calendar.
pub open spec fn calendar_problem(state: StateView) -> Option<ErrorView> {
    match calendar_of(state) {
        Err(error) => Some(error),
        Ok(_) => None,
    }
}

/// Tells whether a state has a calendar, without writing it.
pub fn check_calendar(state: &State) -> (r: Result<(), Error>)
    requires
        state@.dated(),
    ensures
        check_view(r) == calendar_problem(state@),
{
    match list_events(state) {
        Err(error) => Err(error),
        Ok(_) => Ok(()),
    }
}

/// Writes the calendar of a state. Its dates and times have to be ones that the calendar has, and,
/// where it has a calendar, the lines of its active events ones that can be folded.
pub fn calendar(state: &State) -> (r: Result<String, Error>)
    requires
        state@.dated(),
        calendar_problem(state@) is None ==> can_be_written(state@),
    ensures
        result_view(r) == calendar_of(state@),
        r matches Ok(text) ==> forall|i: int|
            0 <= i < state@.records.len() && (#[trigger] state@.records[i]).active ==> shows(
                text@,
                state@.records[i],
            ),
        r matches Ok(text) ==> has_unbroken_links(state@) ==> lines_of(unfolded(text@))
            == calendar_lines(calendar_properties(), events_in(state@)->Ok_0),
{
    match list_events(state) {
        Err(error) => Err(error),
        Ok(events) => {
            let ghost all = state@.records;
            let ghost active = ordered(active_records(all), by_uid());
            let properties: Vec<Property> = make_calendar_properties();
            proof {
                lemma_calendar_properties();
                law_events_of_calendar(all);
                lemma_events_of(active, event_views(events@));
                assert forall|k: int| 0 <= k < events@.len() implies is_whole_event(
                    views(#[trigger] events@[k]@),
                ) by {
                    assert(event_views(events@)[k] == views(events@[k]@));
                    assert(active.contains(active[k]));
                    let i = choose|i: int| 0 <= i < all.len() && all[i] == active[k];
                    assert(all[i].active && all[i].dated());
                    assert(is_ready(active[k]));
                    lemma_event_properties(active[k], views(events@[k]@));
                }
                assert forall|k: int|
                    has_unbroken_links(state@) && 0 <= k < events@.len() implies are_unbroken(
                    views(#[trigger] events@[k]@),
                ) && have_own_keys(views(events@[k]@)) by {
                    assert(event_views(events@)[k] == views(events@[k]@));
                    assert(active.contains(active[k]));
                    let i = choose|i: int| 0 <= i < all.len() && all[i] == active[k];
                    assert(all[i].active && all[i].dated());
                    assert(is_ready(active[k]));
                    assert(has_unbroken_link(all[i]));
                    lemma_event_is_unbroken(active[k], views(events@[k]@));
                }
            }
            let text: String = render(&properties, &events);
            proof {
                assert forall|i: int| 0 <= i < all.len() && (#[trigger] all[i]).active implies shows(
                    text@,
                    all[i],
                ) by {
                    assert(all.contains(all[i]));
                    assert(active.contains(all[i]));
                    let k = choose|k: int| 0 <= k < active.len() && active[k] == all[i];
                    let event = views(events@[k]@);
                    assert(event_views(events@)[k] == event);
                    assert(is_ready(active[k]));
                    lemma_event_properties(all[i], event);
                    lemma_shown(all[i], event);
                }
            }
            Ok(text)
        },
    }
}

/// Where the properties that `shows` speaks of stand among those of an event.
proof fn lemma_shown(record: RecordView, properties: Seq<PropertyView>)
    requires
        event_properties(record) == Ok::<_, ErrorView>(properties),
    ensures
        properties[1] == plain_property("DTSTAMP"@, compact_stamp(record.updated_at)),
        properties[2] == plain_property("LAST-MODIFIED"@, compact_stamp(record.updated_at)),
        properties[3] == plain_property("SEQUENCE"@, decimal_text(record.sequence as nat)),
        properties[4] == plain_property("SUMMARY"@, record.event->0.title),
        primary_link_of(record.links, record.event->0.link_ids) matches Some(link)
            ==> properties[6] == plain_property("URL"@, link.url),
        match record.event->0.deadline {
            Deadline::AllDay { date } => {
                &&& properties[properties.len() - 2] == date_property("DTSTART"@, date)
                &&& properties[properties.len() - 1] == date_property(
                    "DTEND"@,
                    date.successor()->0,
                )
            },
            Deadline::Timed { local } => properties[properties.len() - 1] == plain_property(
                "DTSTART"@,
                compact_stamp(los_angeles_utc(local)->0),
            ),
        },
{
    let event = record.event->0;
    let details = detail_properties(record, event);
    let more = deadline_properties(event.deadline, moment_of(event.deadline))->Ok_0;
    assert(properties == details + more);
    assert(properties[properties.len() - 1] == more[more.len() - 1]);
    assert(properties[details.len() as int] == more[0]);
}

/// A part of a part is a part.
proof fn lemma_part_of_part(text: Seq<char>, part: Seq<char>, inner: Seq<char>)
    requires
        has_part(text, part),
        has_part(part, inner),
    ensures
        has_part(text, inner),
{
    let x = choose|x: int| #[trigger] stands_at(text, part, x);
    let y = choose|y: int| #[trigger] stands_at(part, inner, y);
    assert(text.subrange(x + y, x + y + inner.len()) =~= part.subrange(y, y + inner.len())) by {
        assert(part == text.subrange(x, x + part.len()));
    }
    assert(stands_at(text, inner, x + y));
}

/// A text is a part of what it is put together with others into.
proof fn lemma_part_of_concat(before: Seq<char>, part: Seq<char>, after: Seq<char>)
    ensures
        has_part(before + part + after, part),
{
    let whole = before + part + after;
    assert(whole.subrange(before.len() as int, (before.len() + part.len()) as int) =~= part);
    assert(stands_at(whole, part, before.len() as int));
}

/// Each of the parts that are joined stands in the whole.
proof fn lemma_part_of_joined(parts: Seq<Seq<char>>, separator: Seq<char>, i: int)
    requires
        0 <= i < parts.len(),
    ensures
        has_part(joined(parts, separator), parts[i]),
    decreases parts.len(),
{
    let whole = joined(parts, separator);
    if parts.len() == 1 {
        lemma_part_of_concat(seq![], parts[0], seq![]);
        assert(seq![] + parts[0] + seq![] =~= parts[0]);
    } else {
        let front = joined(parts.drop_last(), separator);
        if i == parts.len() - 1 {
            lemma_part_of_concat(front + separator, parts[i], seq![]);
            assert(front + separator + parts[i] + seq![] =~= whole);
        } else {
            lemma_part_of_joined(parts.drop_last(), separator, i);
            lemma_part_of_concat(seq![], front, separator + parts.last());
            assert(seq![] + front + (separator + parts.last()) =~= whole);
            lemma_part_of_part(whole, front, parts[i]);
        }
    }
}

/// The description of an event keeps the schedule text and the address of every link, and the
/// body of the event and the page of the schedule.
pub proof fn law_description_keeps_source(record: RecordView, event: EventView)
    ensures
        has_part(description_of(record, event), record.source_text),
        has_part(description_of(record, event), event.body),
        has_part(description_of(record, event), SCHEDULE_URL@),
        forall|i: int|
            0 <= i < record.links.len() ==> has_part(
                description_of(record, event),
                (#[trigger] record.links[i]).url,
            ),
{
    let parts = description_parts(record, event);
    let whole = description_of(record, event);
    let title = "Original schedule text:\n"@;
    let page = "Course schedule:\n"@;
    assert(parts[0] == event.body);
    lemma_part_of_joined(parts, "\n\n"@, 0);
    assert(parts[1] == title + record.source_text);
    lemma_part_of_joined(parts, "\n\n"@, 1);
    lemma_part_of_concat(title, record.source_text, seq![]);
    assert(title + record.source_text + seq![] =~= parts[1]);
    lemma_part_of_part(whole, parts[1], record.source_text);
    let last = parts.len() - 1;
    assert(parts[last] == page + SCHEDULE_URL@);
    lemma_part_of_joined(parts, "\n\n"@, last);
    lemma_part_of_concat(page, SCHEDULE_URL@, seq![]);
    assert(page + SCHEDULE_URL@ + seq![] =~= parts[last]);
    lemma_part_of_part(whole, parts[last], SCHEDULE_URL@);
    assert forall|i: int| 0 <= i < record.links.len() implies has_part(
        whole,
        (#[trigger] record.links[i]).url,
    ) by {
        let lines = link_lines(record.links);
        let link = record.links[i];
        assert(parts[2] == joined(lines, "\n"@));
        lemma_part_of_joined(parts, "\n\n"@, 2);
        lemma_part_of_joined(lines, "\n"@, i);
        assert(lines[i] == link_line(link));
        if link.text.len() == 0 {
            lemma_part_of_concat(seq![], link.url, seq![]);
            assert(seq![] + link.url + seq![] =~= link_line(link));
        } else {
            lemma_part_of_concat(link.text + ": "@, link.url, seq![]);
            assert(link.text + ": "@ + link.url + seq![] =~= link_line(link));
        }
        lemma_part_of_part(parts[2], lines[i], link.url);
        lemma_part_of_part(whole, parts[2], link.url);
    }
}

/// Whether the deadline of a record, if it has an event, can be written: a day with a next one, or
/// a local time that names one moment.
pub open spec fn has_writable_deadline(record: RecordView) -> bool {
    match record.event {
        Some(event) => deadline_properties(event.deadline, moment_of(event.deadline)) is Ok,
        None => true,
    }
}

/// What is accepted of a reply can be written: its deadline is a day with a next one, or names one
/// moment.
pub proof fn law_accepted_deadline_is_written(
    candidate: CandidateView,
    output: OutputView,
    event: EventView,
)
    requires
        model_verdict(candidate, output) == Ok::<_, ErrorView>(Some(event)),
    ensures
        deadline_properties(event.deadline, moment_of(event.deadline)) is Ok,
{
    law_accepted_event(candidate, output, event);
}

/// Records with events and with deadlines that can be written make events.
proof fn lemma_events_are_made(records: Seq<RecordView>)
    requires
        forall|k: int|
            0 <= k < records.len() ==> (#[trigger] records[k]).event is Some
                && has_writable_deadline(records[k]),
    ensures
        events_of(records) is Ok,
    decreases records.len(),
{
    if records.len() > 0 {
        let front = records.drop_last();
        assert(forall|k: int| 0 <= k < front.len() ==> front[k] == #[trigger] records[k]);
        lemma_events_are_made(front);
        assert(records[records.len() - 1] == records.last());
    }
}

/// A state that keeps the rules and whose deadlines can be written has a calendar.
pub proof fn law_good_state_has_a_calendar(state: StateView)
    requires
        state_problem(state) is None,
        forall|i: int|
            0 <= i < state.records.len() ==> has_writable_deadline(#[trigger] state.records[i]),
    ensures
        calendar_of(state) is Ok,
{
    law_accepted_states(state);
    let all = state.records;
    let active = ordered(active_records(all), by_uid());
    law_events_of_calendar(all);
    assert forall|k: int| 0 <= k < active.len() implies (#[trigger] active[k]).event is Some
        && has_writable_deadline(active[k]) by {
        assert(active.contains(active[k]));
        let i = choose|i: int| 0 <= i < all.len() && all[i] == active[k];
        assert(is_sound_record(all[i]));
        assert(has_writable_deadline(all[i]));
    }
    lemma_events_are_made(active);
}

/// A link that an event leads to is one of its item.
pub proof fn law_primary_link_is_own(links: Seq<LinkView>, link_ids: Seq<Seq<char>>)
    ensures
        primary_link_of(links, link_ids) matches Some(link) ==> links.contains(link),
        primary_link_of(links, link_ids) is Some <==> links.len() > 0,
{
    if link_ids.len() > 0 {
        lemma_link_with_id(links, link_ids[0]);
    }
}

/// A link that is found is one of the list.
proof fn lemma_link_with_id(links: Seq<LinkView>, id: Seq<char>)
    ensures
        link_with_id(links, id) matches Some(link) ==> link.id == id && links.contains(link),
    decreases links.len(),
{
    if links.len() > 0 && links[0].id != id {
        lemma_link_with_id(links.skip(1), id);
        if link_with_id(links, id) is Some {
            let link = link_with_id(links, id)->0;
            let k = choose|k: int| 0 <= k < links.skip(1).len() && links.skip(1)[k] == link;
            assert(links[k + 1] == link);
        }
    }
}

/// A line of a link has its text, where there is one, and always its address.
pub proof fn law_link_line(link: LinkView)
    ensures
        link.text.len() == 0 ==> link_line(link) == link.url,
        link.text.len() > 0 ==> link_line(link) == link.text + ": "@ + link.url,
{
}

/// A description has the body, the schedule text, a line for each link in order where there are
/// any, and the page of the schedule, with an empty line between.
pub proof fn law_description(record: RecordView, event: EventView)
    ensures
        record.links.len() == 0 ==> description_of(record, event) == event.body + "\n\n"@ + (
        "Original schedule text:\n"@ + record.source_text) + "\n\n"@ + ("Course schedule:\n"@
            + "https://data385.netlify.app/schedule"@),
        record.links.len() > 0 ==> description_of(record, event) == event.body + "\n\n"@ + (
        "Original schedule text:\n"@ + record.source_text) + "\n\n"@ + joined(
            record.links.map_values(|link: LinkView| link_line(link)),
            "\n"@,
        ) + "\n\n"@ + ("Course schedule:\n"@ + "https://data385.netlify.app/schedule"@),
{
    assert(SCHEDULE_URL@ == "https://data385.netlify.app/schedule"@);
    let gap = "\n\n"@;
    let source = "Original schedule text:\n"@ + record.source_text;
    let page = "Course schedule:\n"@ + SCHEDULE_URL@;
    let parts = description_parts(record, event);
    assert(record.links.map_values(|link: LinkView| link_line(link)) =~= link_lines(record.links));
    let start = seq![event.body, source];
    assert(start =~= seq![event.body].push(source));
    law_joined(seq![event.body], source, gap);
    law_joined(seq![], event.body, gap);
    if record.links.len() == 0 {
        assert(parts =~= start.push(page));
        law_joined(start, page, gap);
    } else {
        let list = joined(link_lines(record.links), "\n"@);
        let more = start.push(list);
        assert(parts =~= more.push(page));
        law_joined(start, list, gap);
        law_joined(more, page, gap);
    }
}

/// An event leads to the first of its links that has the first identifier which it names, else to
/// the first link, and to none only where there are no links.
pub proof fn law_primary_link(
    before: Seq<LinkView>,
    link: LinkView,
    after: Seq<LinkView>,
    link_ids: Seq<Seq<char>>,
)
    requires
        forall|i: int|
            0 <= i < before.len() ==> link_ids.len() > 0 && (#[trigger] before[i]).id
                != link_ids[0],
    ensures
        link_ids.len() > 0 && link.id == link_ids[0] ==> primary_link_of(
            before + seq![link] + after,
            link_ids,
        ) == Some(link),
        before.len() > 0 ==> primary_link_of(before, link_ids) == Some(before[0]),
        primary_link_of(seq![link] + after, seq![]) == Some(link),
        primary_link_of(seq![], link_ids) is None,
{
    assert((seq![link] + after)[0] == link);
    if link_ids.len() > 0 {
        lemma_first_with_id(before, link, after, link_ids[0]);
    }
}

/// The first link with an identifier is found behind those that have another.
proof fn lemma_first_with_id(
    before: Seq<LinkView>,
    link: LinkView,
    after: Seq<LinkView>,
    id: Seq<char>,
)
    requires
        forall|i: int| 0 <= i < before.len() ==> (#[trigger] before[i]).id != id,
    ensures
        link_with_id(before, id) is None,
        link.id == id ==> link_with_id(before + seq![link] + after, id) == Some(link),
    decreases before.len(),
{
    let all = before + seq![link] + after;
    if before.len() > 0 {
        let rest = before.skip(1);
        assert forall|i: int| 0 <= i < rest.len() implies (#[trigger] rest[i]).id != id by {
            assert(rest[i] == before[i + 1]);
        }
        lemma_first_with_id(rest, link, after, id);
        assert(all[0] == before[0]);
        assert(all.skip(1) =~= rest + seq![link] + after);
    } else {
        assert(all[0] == link);
    }
}

/// Whether a property has a name and a value and no parameters.
pub open spec fn says(property: PropertyView, key: Seq<char>, value: Seq<char>) -> bool {
    property.key == key && property.value == value && property.parameters.len() == 0
}

/// Whether a property has a name and a day for its value, and says that it is one.
pub open spec fn says_day(property: PropertyView, key: Seq<char>, date: Date) -> bool {
    &&& property.key == key
    &&& property.value == compact_date(date)
    &&& property.parameters == seq![("VALUE"@, "DATE"@)]
}

/// An event in the calendar has the identifier, the moment and the number of the last revision of
/// its record, its title, its description, the address that it leads to where there is one, and
/// its deadline: a whole day up to the next, or the moment in UTC. Nothing else is said of it.
pub proof fn law_event_properties(record: RecordView, properties: Seq<PropertyView>)
    requires
        event_properties(record) == Ok::<_, ErrorView>(properties),
    ensures
        record.event matches Some(event) && {
            let link = primary_link_of(record.links, event.link_ids);
            let at: int = if link is Some {
                7
            } else {
                6
            };
            &&& says(properties[0], "UID"@, record.uid)
            &&& says(properties[1], "DTSTAMP"@, compact_stamp(record.updated_at))
            &&& says(properties[2], "LAST-MODIFIED"@, compact_stamp(record.updated_at))
            &&& says(properties[3], "SEQUENCE"@, decimal_text(record.sequence as nat))
            &&& says(properties[4], "SUMMARY"@, event.title)
            &&& says(properties[5], "DESCRIPTION"@, description_of(record, event))
            &&& link matches Some(link) ==> says(properties[6], "URL"@, link.url)
            &&& match event.deadline {
                Deadline::AllDay { date } => {
                    &&& properties.len() == at + 2
                    &&& says_day(properties[at], "DTSTART"@, date)
                    &&& date.successor() matches Some(next) && says_day(
                        properties[at + 1],
                        "DTEND"@,
                        next,
                    )
                },
                Deadline::Timed { local } => {
                    &&& properties.len() == at + 1
                    &&& los_angeles_utc(local) matches Some(moment) && says(
                        properties[at],
                        "DTSTART"@,
                        compact_stamp(moment),
                    )
                },
            }
        },
{
    let event = record.event->0;
    let details = detail_properties(record, event);
    let more = deadline_properties(event.deadline, moment_of(event.deadline))->Ok_0;
    assert(properties == details + more);
    assert(forall|i: int| 0 <= i < details.len() ==> properties[i] == #[trigger] details[i]);
    assert(properties[details.len() as int] == more[0]);
    if event.deadline is AllDay {
        assert(properties[details.len() as int + 1] == more[1]);
    }
}

/// A record makes an event exactly where it has one, and its deadline is a day with a next one or
/// names one moment.
pub proof fn law_record_makes_event(record: RecordView)
    ensures
        event_properties(record) is Ok <==> (record.event matches Some(event) && match event.deadline {
            Deadline::AllDay { date } => date.successor() is Some,
            Deadline::Timed { local } => los_angeles_utc(local) is Some,
        }),
{
}

/// One record more makes one event more, behind the others. A record that makes none is a failure
/// of all.
pub proof fn law_events_in_order(records: Seq<RecordView>, record: RecordView)
    ensures
        events_of(seq![]) == Ok::<Seq<Seq<PropertyView>>, ErrorView>(seq![]),
        match (events_of(records), event_properties(record)) {
            (Ok(events), Ok(event)) => events_of(records.push(record)) == Ok::<_, ErrorView>(
                events.push(event),
            ),
            _ => events_of(records.push(record)) is Err,
        },
{
    assert(records.push(record).drop_last() =~= records);
}

/// One record more is among the active ones exactly where it is active.
pub proof fn law_active_records(records: Seq<RecordView>, record: RecordView)
    ensures
        active_records(seq![]) == Seq::<RecordView>::empty(),
        record.active ==> active_records(records.push(record)) == active_records(records).push(
            record,
        ),
        !record.active ==> active_records(records.push(record)) == active_records(records),
{
    assert(records.push(record).drop_last() =~= records);
}

/// The calendar of a state is written of these four properties and of the events of its active
/// records, ordered by their identifiers. A state that breaks the rules, or a record that makes no
/// event, has none.
pub proof fn law_calendar_of(state: StateView, text: Seq<char>)
    ensures
        calendar_of(state) == Ok::<_, ErrorView>(text) <==> state_problem(state) is None && (
        events_of(
            ordered(active_records(state.records), |record: RecordView| record.uid),
        ) matches Ok(events) && text == rendered(
            seq![
                plain_property("VERSION"@, "2.0"@),
                plain_property("CALSCALE"@, "GREGORIAN"@),
                plain_property("PRODID"@, "-//Lomzem//Chronatello//EN"@),
                plain_property("X-WR-CALNAME"@, "DATA 385 Fall 2026"@),
            ],
            events,
        )),
{
    assert(by_uid() =~= (|record: RecordView| record.uid));
}

/// A state can be written exactly where the title, the description and the address of each active
/// event make lines that can be folded.
pub proof fn law_can_be_written(state: StateView)
    ensures
        can_be_written(state) <==> forall|i: int|
            0 <= i < state.records.len() && (#[trigger] state.records[i]).active
                && state.records[i].event is Some ==> {
                let record = state.records[i];
                let event = record.event->0;
                &&& folds("SUMMARY:"@ + escaped(event.title))
                &&& folds("DESCRIPTION:"@ + escaped(description_of(record, event)))
                &&& primary_link_of(record.links, event.link_ids) matches Some(link) ==> folds(
                    "URL:"@ + link.url,
                )
            },
{
    assert forall|text: Seq<char>|
        content_line(plain_property("SUMMARY"@, text)) == "SUMMARY:"@ + #[trigger] escaped(text)
            && content_line(plain_property("DESCRIPTION"@, text)) == "DESCRIPTION:"@ + escaped(
            text,
        ) by {
        law_plain_lines(text);
    }
    assert forall|text: Seq<char>|
        #[trigger] content_line(plain_property("URL"@, text)) == "URL:"@ + text by {
        law_plain_lines(text);
    }
}

/// A deadline on the last day of all has no day to end with, and one at a local time that comes
/// twice or never has no moment. The two are told apart.
pub proof fn law_kinds_of_bad_deadlines(deadline: Deadline)
    ensures
        deadline is AllDay ==> (deadline_properties(deadline, None) matches Err(error) ==> error.kind
            == ErrorKind::DeadlineOverflow),
        deadline is Timed ==> (deadline_properties(deadline, None) matches Err(error) && error.kind
            == ErrorKind::NotUniqueLocalTime),
{
}

} // verus!
