//! Holds the replies of the model against the schedule text.

use vstd::prelude::*;
use vstd::string::*;

use crate::clock::{
    format_date, in_term, is_in_term, law_days_of_term, los_angeles_utc, parse_date, parse_time, parsed_date, parsed_time,
    written_date, Date, DateTime, Time,
};
use crate::evidence::{
    clause_of, date_evidence_problem, deadline_clause, differ, group_times, has_numeric_date,
    local_deadline, parse_source_time, plain_result, reject_ambiguous_source, source_time,
    timed_deadline, validate_date_evidence, weekday_in, weekday_named,
};
use crate::model::{
    check_view, failure, plain_failure, Candidate, CandidateView, Deadline, Error, ErrorKind,
    ErrorView, EventView, LinkView, ModelOutput, ModelStatus, OutputView, SourceLink, StoredEvent,
};
use crate::pattern::{
    all_groups, all_matches, first_match, is_match, ADDRESS_MARK, NUMERIC_DATE, SOURCE_TIME,
};
use crate::text::{
    contains_part, has_part, normalize, normalized, opt_view, same_text, to_lowercase, trim,
    trimmed, unicode_lowercase, views,
};

verus! {

/// The most characters that a title may have.
pub const MAX_TITLE: usize = 120;

/// The most characters that a body may have.
pub const MAX_BODY: usize = 2000;

/// Whether an identifier is that of one of the links.
pub open spec fn is_known(links: Seq<LinkView>, id: Seq<char>) -> bool {
    exists|i: int| 0 <= i < links.len() && (#[trigger] links[i]).id == id
}

/// Whether no text comes twice.
pub open spec fn all_distinct(items: Seq<Seq<char>>) -> bool {
    forall|i: int, j: int| 0 <= i < j < items.len() ==> #[trigger] items[i] != #[trigger] items[j]
}

/// Whether the identifiers are ones of the links, each at most once.
pub open spec fn are_link_ids(links: Seq<LinkView>, ids: Seq<Seq<char>>) -> bool {
    &&& forall|i: int| 0 <= i < ids.len() ==> is_known(links, #[trigger] ids[i])
    &&& all_distinct(ids)
}

/// Looks for an identifier among the links.
fn knows(links: &Vec<SourceLink>, id: &str) -> (r: bool)
    ensures
        r == is_known(views(links@), id@),
{
    let ghost all = views(links@);
    let mut i: usize = 0;
    while i < links.len()
        invariant
            all == views(links@),
            i <= links@.len(),
            forall|k: int| 0 <= k < i ==> (#[trigger] all[k]).id != id@,
        decreases links@.len() - i,
    {
        if same_text(links[i].id.as_str(), id) {
            assert(all[i as int].id == id@);
            return true;
        }
        i = i + 1;
    }
    false
}

/// Looks for a text among the first texts of a list.
pub fn holds_text(items: &Vec<String>, count: usize, text: &str) -> (r: bool)
    requires
        count <= items@.len(),
    ensures
        r == views(items@).take(count as int).contains(text@),
{
    let ghost front = views(items@).take(count as int);
    let mut i: usize = 0;
    while i < count
        invariant
            front == views(items@).take(count as int),
            i <= count <= items@.len(),
            forall|k: int| 0 <= k < i ==> #[trigger] front[k] != text@,
        decreases count - i,
    {
        if same_text(items[i].as_str(), text) {
            assert(front[i as int] == text@);
            return true;
        }
        i = i + 1;
    }
    false
}

/// Tells whether the identifiers are ones of the links, each at most once.
fn check_link_ids(links: &Vec<SourceLink>, ids: &Vec<String>) -> (r: bool)
    ensures
        r == are_link_ids(views(links@), views(ids@)),
{
    let ghost all = views(ids@);
    let mut i: usize = 0;
    while i < ids.len()
        invariant
            all == views(ids@),
            i <= ids@.len(),
            forall|k: int| 0 <= k < i ==> is_known(views(links@), #[trigger] all[k]),
            forall|k: int, m: int| 0 <= k < m < i ==> #[trigger] all[k] != #[trigger] all[m],
        decreases ids@.len() - i,
    {
        if !knows(links, ids[i].as_str()) {
            assert(!is_known(views(links@), all[i as int]));
            return false;
        }
        if holds_text(ids, i, ids[i].as_str()) {
            let ghost k = choose|k: int| 0 <= k < i && all.take(i as int)[k] == all[i as int];
            assert(all.take(i as int).contains(all[i as int]));
            assert(all[k] == all[i as int]);
            return false;
        }
        proof {
            assert forall|k: int| 0 <= k < i implies #[trigger] all[k] != all[i as int] by {
                assert(all.take(i as int)[k] == all[k]);
            }
        }
        i = i + 1;
    }
    true
}

/// What was read from a schedule text and a reply before the reply is judged.
pub struct Readings {
    /// Whether the schedule text holds two different dates.
    pub ambiguous: bool,
    /// The deadline clause of the schedule text.
    pub clause: Option<String>,
    /// The deadline clause in lower case.
    pub lower_clause: String,
    /// Whether the deadline clause holds a date in digits.
    pub clause_has_date: bool,
    /// Whether the deadline clause names the due date of the reply, and no other weekday first.
    pub clause_date: Result<(), Error>,
    /// The time that the deadline clause gives.
    pub clause_time: Result<Option<Time>, Error>,
    /// Whether the title or the body of the reply holds a web address.
    pub has_address: bool,
    /// The day that the due date of the reply names.
    pub due_date: Option<Date>,
    /// The time that the due time of the reply names.
    pub due_time: Option<Time>,
    /// Whether the evidence names the due date of the reply.
    pub evidence_date: Result<(), Error>,
    /// The time that the evidence gives.
    pub evidence_time: Result<Option<Time>, Error>,
}

/// What was read, by view.
#[verifier::ext_equal]
pub struct ReadingsView {
    pub ambiguous: bool,
    pub clause: Option<Seq<char>>,
    pub lower_clause: Seq<char>,
    pub clause_has_date: bool,
    pub clause_date: Option<ErrorView>,
    pub clause_time: Result<Option<Time>, ErrorView>,
    pub has_address: bool,
    pub due_date: Option<Date>,
    pub due_time: Option<Time>,
    pub evidence_date: Option<ErrorView>,
    pub evidence_time: Result<Option<Time>, ErrorView>,
}

impl View for Readings {
    type V = ReadingsView;

    open spec fn view(&self) -> ReadingsView {
        ReadingsView {
            ambiguous: self.ambiguous,
            clause: opt_view(self.clause),
            lower_clause: self.lower_clause@,
            clause_has_date: self.clause_has_date,
            clause_date: check_view(self.clause_date),
            clause_time: plain_result(self.clause_time),
            has_address: self.has_address,
            due_date: self.due_date,
            due_time: self.due_time,
            evidence_date: check_view(self.evidence_date),
            evidence_time: plain_result(self.evidence_time),
        }
    }
}

/// What is wrong with a title and a body, the white space of which was reduced.
pub open spec fn presentation_problem(title: Seq<char>, body: Seq<char>, has_address: bool) -> Option<
    ErrorView,
> {
    if title.len() == 0 || body.len() == 0 {
        Some(plain_failure(ErrorKind::EmptyPresentation))
    } else if title.len() > MAX_TITLE || body.len() > MAX_BODY {
        Some(plain_failure(ErrorKind::PresentationTooLong))
    } else if has_address {
        Some(plain_failure(ErrorKind::AddressInPresentation))
    } else {
        None
    }
}

/// Checks a title and a body.
fn check_presentation(title: &str, body: &str, has_address: bool) -> (r: Result<(), Error>)
    ensures
        check_view(r) == presentation_problem(title@, body@, has_address),
{
    let title_length: usize = title.unicode_len();
    let body_length: usize = body.unicode_len();
    if title_length == 0 || body_length == 0 {
        return Err(Error::plain(ErrorKind::EmptyPresentation));
    }
    if title_length > MAX_TITLE || body_length > MAX_BODY {
        return Err(Error::plain(ErrorKind::PresentationTooLong));
    }
    if has_address {
        return Err(Error::plain(ErrorKind::AddressInPresentation));
    }
    Ok(())
}

/// The day that a reply, its evidence and the deadline clause agree on. The evidence stands in the
/// deadline clause, but may hold no more than a part of what the clause says of the day.
pub open spec fn agreed_day(
    source: Seq<char>,
    evidence: Seq<char>,
    date_text: Seq<char>,
    clause: Option<Seq<char>>,
    due_date: Option<Date>,
    evidence_date: Option<ErrorView>,
    clause_date: Option<ErrorView>,
) -> Result<Date, ErrorView> {
    if trimmed(evidence).len() == 0 || !has_part(source, evidence) {
        Err(plain_failure(ErrorKind::EvidenceNotInSource))
    } else {
        match clause {
            None => Err(plain_failure(ErrorKind::NoDeadlineClause)),
            Some(clause) => if !has_part(clause, evidence) {
                Err(plain_failure(ErrorKind::EvidenceOutsideClause))
            } else {
                match due_date {
                    None => Err(failure(ErrorKind::InvalidDueDate, date_text)),
                    Some(date) => if !in_term(date) {
                        Err(failure(ErrorKind::OutsideTerm, written_date(date)))
                    } else {
                        match (evidence_date, clause_date) {
                            (Some(error), _) => Err(error),
                            (None, Some(error)) => Err(error),
                            (None, None) => Ok(date),
                        }
                    },
                }
            },
        }
    }
}

/// Finds the day that a reply, its evidence and the deadline clause agree on.
fn agree_on_day(
    source: &str,
    evidence: &str,
    date_text: &str,
    clause: &Option<String>,
    due_date: Option<Date>,
    evidence_date: Result<(), Error>,
    clause_date: Result<(), Error>,
) -> (r: Result<Date, Error>)
    requires
        due_date matches Some(date) ==> date.valid(),
    ensures
        plain_result(r) == agreed_day(
            source@,
            evidence@,
            date_text@,
            opt_view(*clause),
            due_date,
            check_view(evidence_date),
            check_view(clause_date),
        ),
{
    let bare: String = trim(evidence);
    if bare.as_str().is_empty() || !contains_part(source, evidence) {
        return Err(Error::plain(ErrorKind::EvidenceNotInSource));
    }
    match clause {
        None => Err(Error::plain(ErrorKind::NoDeadlineClause)),
        Some(clause) => {
            if !contains_part(clause.as_str(), evidence) {
                return Err(Error::plain(ErrorKind::EvidenceOutsideClause));
            }
            match due_date {
                None => Err(Error::about(ErrorKind::InvalidDueDate, date_text)),
                Some(date) => {
                    if !is_in_term(date) {
                        let written: String = format_date(date, "%Y-%m-%d");
                        return Err(Error::about(ErrorKind::OutsideTerm, written.as_str()));
                    }
                    match evidence_date {
                        Err(error) => Err(error),
                        Ok(_) => match clause_date {
                            Err(error) => Err(error),
                            Ok(_) => Ok(date),
                        },
                    }
                },
            }
        },
    }
}

/// The time of the evidence, where the clause does not give another.
pub open spec fn time_of_both(
    evidence_time: Result<Option<Time>, ErrorView>,
    clause_time: Result<Option<Time>, ErrorView>,
) -> Result<Option<Time>, ErrorView> {
    match (evidence_time, clause_time) {
        (Err(error), _) => Err(error),
        (_, Err(error)) => Err(error),
        (Ok(own), Ok(whole)) => if whole is Some && own != whole {
            Err(plain_failure(ErrorKind::SourceTimeOmitted))
        } else {
            Ok(own)
        },
    }
}

/// Finds the time of the evidence.
fn compare_times(
    evidence_time: Result<Option<Time>, Error>,
    clause_time: Result<Option<Time>, Error>,
) -> (r: Result<Option<Time>, Error>)
    ensures
        plain_result(r) == time_of_both(plain_result(evidence_time), plain_result(clause_time)),
{
    match evidence_time {
        Err(error) => Err(error),
        Ok(own) => match clause_time {
            Err(error) => Err(error),
            Ok(whole) => {
                let same: bool = match (&own, &whole) {
                    (Some(a), Some(b)) => *a == *b,
                    (None, Some(_)) => false,
                    _ => true,
                };
                if !same {
                    Err(Error::plain(ErrorKind::SourceTimeOmitted))
                } else {
                    Ok(own)
                }
            },
        },
    }
}

/// Whether a deadline clause in lower case speaks of the end of class.
pub open spec fn at_end_of_class(lower_clause: Seq<char>) -> bool {
    has_part(lower_clause, "end of class"@)
}

/// When class ends.
pub open spec fn class_end() -> Time {
    Time { hour: 13, minute: 45, second: 0, nanosecond: 0 }
}

/// The deadline on a day, from the time of the evidence and the due time of the reply: the end of
/// class where the clause speaks of it, else the time, else the whole day.
pub open spec fn deadline_on(
    date: Date,
    time: Option<Time>,
    due_time: Option<Seq<char>>,
    read_time: Option<Time>,
    lower_clause: Seq<char>,
) -> Result<Deadline, ErrorView> {
    if at_end_of_class(lower_clause) {
        if due_time != Some("end_of_class"@) {
            Err(plain_failure(ErrorKind::EndOfClassExpected))
        } else {
            Ok(Deadline::Timed { local: DateTime { date, time: class_end() } })
        }
    } else {
        match (time, due_time) {
            (Some(_), None) => Err(plain_failure(ErrorKind::DueTimeMissing)),
            (Some(time), Some(text)) => match read_time {
                None => Err(failure(ErrorKind::InvalidDueTime, text)),
                Some(read) => if read != time {
                    Err(plain_failure(ErrorKind::TimeMismatch))
                } else {
                    Ok(Deadline::Timed { local: DateTime { date, time } })
                },
            },
            (None, Some(_)) => Err(plain_failure(ErrorKind::InventedTime)),
            (None, None) => Ok(Deadline::AllDay { date }),
        }
    }
}

/// Makes the deadline on a day.
fn make_deadline(
    date: Date,
    time: Option<Time>,
    due_time: &Option<String>,
    read_time: Option<Time>,
    lower_clause: &str,
) -> (r: Result<Deadline, Error>)
    ensures
        plain_result(r) == deadline_on(
            date,
            time,
            opt_view(*due_time),
            read_time,
            lower_clause@,
        ),
{
    if contains_part(lower_clause, "end of class") {
        let expected: bool = match due_time {
            Some(text) => same_text(text.as_str(), "end_of_class"),
            None => false,
        };
        if !expected {
            return Err(Error::plain(ErrorKind::EndOfClassExpected));
        }
        let time: Time = Time { hour: 13, minute: 45, second: 0, nanosecond: 0 };
        return Ok(Deadline::Timed { local: DateTime { date, time } });
    }
    match (time, due_time) {
        (Some(_), None) => Err(Error::plain(ErrorKind::DueTimeMissing)),
        (Some(time), Some(text)) => match read_time {
            None => Err(Error::about(ErrorKind::InvalidDueTime, text.as_str())),
            Some(read) => if read != time {
                Err(Error::plain(ErrorKind::TimeMismatch))
            } else {
                Ok(Deadline::Timed { local: DateTime { date, time } })
            },
        },
        (None, Some(_)) => Err(Error::plain(ErrorKind::InventedTime)),
        (None, None) => Ok(Deadline::AllDay { date }),
    }
}

/// What the deadline fields of a reply come to.
pub open spec fn deadline_verdict(
    source: Seq<char>,
    evidence: Seq<char>,
    date_text: Seq<char>,
    due_time: Option<Seq<char>>,
    readings: ReadingsView,
) -> Result<Deadline, ErrorView> {
    match agreed_day(
        source,
        evidence,
        date_text,
        readings.clause,
        readings.due_date,
        readings.evidence_date,
        readings.clause_date,
    ) {
        Err(error) => Err(error),
        Ok(date) => match time_of_both(readings.evidence_time, readings.clause_time) {
            Err(error) => Err(error),
            Ok(time) => deadline_on(
                date,
                time,
                due_time,
                readings.due_time,
                readings.lower_clause,
            ),
        },
    }
}

/// Reads the deadline fields of a reply.
fn read_deadline(
    source: &str,
    evidence: &str,
    date_text: &str,
    due_time: &Option<String>,
    readings: Readings,
) -> (r: Result<Deadline, Error>)
    requires
        readings.due_date matches Some(date) ==> date.valid(),
    ensures
        plain_result(r) == deadline_verdict(
            source@,
            evidence@,
            date_text@,
            opt_view(*due_time),
            readings@,
        ),
{
    match agree_on_day(
        source,
        evidence,
        date_text,
        &readings.clause,
        readings.due_date,
        readings.evidence_date,
        readings.clause_date,
    ) {
        Err(error) => Err(error),
        Ok(date) => match compare_times(readings.evidence_time, readings.clause_time) {
            Err(error) => Err(error),
            Ok(time) => make_deadline(
                date,
                time,
                due_time,
                readings.due_time,
                readings.lower_clause.as_str(),
            ),
        },
    }
}

/// What a reply that reports an event comes to.
pub open spec fn event_verdict(
    candidate: CandidateView,
    output: OutputView,
    readings: ReadingsView,
) -> Result<EventView, ErrorView> {
    let title = normalized(output.title);
    let body = trimmed(output.body);
    match presentation_problem(title, body, readings.has_address) {
        Some(error) => Err(error),
        None => match (output.due_evidence, output.due_date) {
            (Some(evidence), Some(date_text)) => match deadline_verdict(
                candidate.source_text,
                evidence,
                date_text,
                output.due_time,
                readings,
            ) {
                Err(error) => Err(error),
                Ok(deadline) => Ok(
                    EventView {
                        title,
                        body,
                        classification: output.classification,
                        deadline,
                        link_ids: output.link_ids,
                    },
                ),
            },
            _ => Err(plain_failure(ErrorKind::IncompleteDeadline)),
        },
    }
}

/// What is wrong with a reply that reports no event.
pub open spec fn silence_problem(output: OutputView, readings: ReadingsView) -> Option<ErrorView> {
    if output.due_evidence is Some || output.due_date is Some || output.due_time is Some {
        Some(plain_failure(ErrorKind::UnexpectedDeadlineFields))
    } else if readings.clause_has_date {
        Some(plain_failure(ErrorKind::SuppressedDeadline))
    } else {
        None
    }
}

/// What a reply to a schedule item comes to, given what was read from both: an event, no event, or
/// a failure. The checks come in this order. Whether a local time names one moment is left open.
pub open spec fn judged(
    candidate: CandidateView,
    output: OutputView,
    readings: ReadingsView,
) -> Result<Option<EventView>, ErrorView> {
    if readings.ambiguous {
        Err(plain_failure(ErrorKind::MultipleDates))
    } else if output.classification != candidate.kind {
        Err(plain_failure(ErrorKind::ClassificationChanged))
    } else if !are_link_ids(candidate.links, output.link_ids) {
        Err(plain_failure(ErrorKind::BadLinkIds))
    } else {
        match output.status {
            ModelStatus::Ambiguous => Err(plain_failure(ErrorKind::AmbiguousDeadline)),
            ModelStatus::NoExplicitDeadline | ModelStatus::NotAssignment => match silence_problem(
                output,
                readings,
            ) {
                Some(error) => Err(error),
                None => Ok(None),
            },
            ModelStatus::Event => match event_verdict(candidate, output, readings) {
                Err(error) => Err(error),
                Ok(event) => Ok(Some(event)),
            },
        }
    }
}

/// What is read from a schedule text and a reply.
pub open spec fn readings_of(candidate: CandidateView, output: OutputView) -> ReadingsView {
    let source = candidate.source_text;
    let clause = clause_of(source);
    let title = normalized(output.title);
    let body = trimmed(output.body);
    let due_date = match output.due_date {
        Some(text) => parsed_date(text, "%Y-%m-%d"@),
        None => None,
    };
    ReadingsView {
        ambiguous: differ(all_matches(NUMERIC_DATE@, source)),
        clause,
        lower_clause: match clause {
            Some(clause) => unicode_lowercase(clause),
            None => seq![],
        },
        clause_has_date: match clause {
            Some(clause) => first_match(NUMERIC_DATE@, clause) is Some,
            None => false,
        },
        clause_date: match (clause, due_date) {
            (Some(clause), Some(date)) => date_evidence_problem(clause, date),
            _ => None,
        },
        clause_time: match clause {
            Some(clause) => source_time(clause),
            None => Ok(None),
        },
        has_address: first_match(ADDRESS_MARK@, title) is Some || first_match(
            ADDRESS_MARK@,
            body,
        ) is Some,
        due_date,
        due_time: match output.due_time {
            Some(text) => parsed_time(text, "%H:%M"@),
            None => None,
        },
        evidence_date: match (output.due_evidence, due_date) {
            (Some(evidence), Some(date)) => date_evidence_problem(evidence, date),
            _ => None,
        },
        evidence_time: match output.due_evidence {
            Some(evidence) => source_time(evidence),
            None => Ok(None),
        },
    }
}

/// What a reply to a schedule item comes to: what it is judged to be, where a local time names
/// exactly one moment.
pub open spec fn model_verdict(candidate: CandidateView, output: OutputView) -> Result<
    Option<EventView>,
    ErrorView,
> {
    match judged(candidate, output, readings_of(candidate, output)) {
        Err(error) => Err(error),
        Ok(None) => Ok(None),
        Ok(Some(event)) => match event.deadline {
            Deadline::AllDay { .. } => Ok(Some(event)),
            Deadline::Timed { local } => match timed_deadline(local.date, local.time) {
                Err(error) => Err(error),
                Ok(_) => Ok(Some(event)),
            },
        },
    }
}

/// What a reply came to, by view.
pub open spec fn verdict_view(result: Result<Option<StoredEvent>, Error>) -> Result<
    Option<EventView>,
    ErrorView,
> {
    match result {
        Ok(event) => Ok(opt_view(event)),
        Err(error) => Err(error@),
    }
}

/// Reads a reply that reports an event.
fn read_event(candidate: &Candidate, output: ModelOutput, readings: Readings) -> (r: Result<
    StoredEvent,
    Error,
>)
    requires
        readings.due_date matches Some(date) ==> date.valid(),
    ensures
        match r {
            Ok(event) => event_verdict(candidate@, output@, readings@) == Ok::<_, ErrorView>(
                event@,
            ),
            Err(error) => event_verdict(candidate@, output@, readings@) == Err::<EventView, _>(
                error@,
            ),
        },
{
    let title: String = normalize(output.title.as_str());
    let body: String = trim(output.body.as_str());
    match check_presentation(title.as_str(), body.as_str(), readings.has_address) {
        Err(error) => Err(error),
        Ok(_) => match (&output.due_evidence, &output.due_date) {
            (Some(evidence), Some(date_text)) => match read_deadline(
                candidate.source_text.as_str(),
                evidence.as_str(),
                date_text.as_str(),
                &output.due_time,
                readings,
            ) {
                Err(error) => Err(error),
                Ok(deadline) => Ok(
                    StoredEvent {
                        title,
                        body,
                        classification: output.classification,
                        deadline,
                        link_ids: output.link_ids,
                    },
                ),
            },
            _ => Err(Error::plain(ErrorKind::IncompleteDeadline)),
        },
    }
}

/// Checks a reply that reports no event.
fn check_silence(output: &ModelOutput, readings: &Readings) -> (r: Result<(), Error>)
    ensures
        check_view(r) == silence_problem(output@, readings@),
{
    if output.due_evidence.is_some() || output.due_date.is_some() || output.due_time.is_some() {
        return Err(Error::plain(ErrorKind::UnexpectedDeadlineFields));
    }
    if readings.clause_has_date {
        return Err(Error::plain(ErrorKind::SuppressedDeadline));
    }
    Ok(())
}

/// Judges a reply to a schedule item, given what was read from both.
pub fn judge(candidate: &Candidate, output: ModelOutput, readings: Readings) -> (r: Result<
    Option<StoredEvent>,
    Error,
>)
    requires
        readings.due_date matches Some(date) ==> date.valid(),
    ensures
        verdict_view(r) == judged(candidate@, output@, readings@),
{
    if readings.ambiguous {
        return Err(Error::plain(ErrorKind::MultipleDates));
    }
    if output.classification != candidate.kind {
        return Err(Error::plain(ErrorKind::ClassificationChanged));
    }
    if !check_link_ids(&candidate.links, &output.link_ids) {
        return Err(Error::plain(ErrorKind::BadLinkIds));
    }
    match output.status {
        ModelStatus::Ambiguous => Err(Error::plain(ErrorKind::AmbiguousDeadline)),
        ModelStatus::NoExplicitDeadline | ModelStatus::NotAssignment => match check_silence(
            &output,
            &readings,
        ) {
            Err(error) => Err(error),
            Ok(_) => Ok(None),
        },
        ModelStatus::Event => match read_event(candidate, output, readings) {
            Err(error) => Err(error),
            Ok(event) => Ok(Some(event)),
        },
    }
}

/// Reads the schedule text and the reply.
fn read_both(candidate: &Candidate, output: &ModelOutput) -> (r: Readings)
    ensures
        r@ == readings_of(candidate@, output@),
        r.due_date matches Some(date) ==> date.valid(),
{
    let source: &str = candidate.source_text.as_str();
    let title: String = normalize(output.title.as_str());
    let body: String = trim(output.body.as_str());
    let clause: Option<String> = deadline_clause(source);
    let (lower_clause, clause_has_date, clause_time) = match &clause {
        Some(clause) => (
            to_lowercase(clause.as_str()),
            has_numeric_date(clause.as_str()),
            parse_source_time(clause.as_str()),
        ),
        None => (String::new(), false, Ok(None)),
    };
    let due_date: Option<Date> = match &output.due_date {
        Some(text) => parse_date(text.as_str(), "%Y-%m-%d"),
        None => None,
    };
    let evidence_date: Result<(), Error> = match (&output.due_evidence, due_date) {
        (Some(evidence), Some(date)) => validate_date_evidence(evidence.as_str(), date),
        _ => Ok(()),
    };
    let clause_date: Result<(), Error> = match (&clause, due_date) {
        (Some(clause), Some(date)) => validate_date_evidence(clause.as_str(), date),
        _ => Ok(()),
    };
    let r = Readings {
        ambiguous: reject_ambiguous_source(source).is_err(),
        clause,
        lower_clause,
        clause_has_date,
        clause_date,
        clause_time,
        has_address: is_match(ADDRESS_MARK, title.as_str()) || is_match(
            ADDRESS_MARK,
            body.as_str(),
        ),
        due_date,
        due_time: match &output.due_time {
            Some(text) => parse_time(text.as_str(), "%H:%M"),
            None => None,
        },
        evidence_date,
        evidence_time: match &output.due_evidence {
            Some(evidence) => parse_source_time(evidence.as_str()),
            None => Ok(None),
        },
    };
    assert(r@ =~= readings_of(candidate@, output@));
    r
}

/// Holds a reply of the model against the schedule item that it was asked about.
pub fn validate_model(candidate: &Candidate, output: ModelOutput) -> (r: Result<
    Option<StoredEvent>,
    Error,
>)
    ensures
        verdict_view(r) == model_verdict(candidate@, output@),
{
    let readings: Readings = read_both(candidate, &output);
    let ghost reply = output@;
    match judge(candidate, output, readings) {
        Err(error) => Err(error),
        Ok(None) => Ok(None),
        Ok(Some(event)) => {
            proof {
                lemma_judged_event(candidate@, reply, event@);
            }
            match event.deadline {
                Deadline::AllDay { .. } => Ok(Some(event)),
                Deadline::Timed { local } => match local_deadline(local.date, local.time) {
                    Err(error) => Err(error),
                    Ok(_) => Ok(Some(event)),
                },
            }
        },
    }
}

/// Times that the matches name are ones that the day has.
proof fn lemma_group_times(matches: Seq<Seq<Option<Seq<char>>>>)
    ensures
        group_times(matches) matches Ok(times) ==> forall|i: int|
            0 <= i < times.len() ==> (#[trigger] times[i]).valid(),
    decreases matches.len(),
{
    if matches.len() > 0 {
        lemma_group_times(matches.drop_last());
    }
}

/// The deadline of a reply that is judged to be an event is one that the calendar has.
proof fn lemma_judged_event(candidate: CandidateView, output: OutputView, event: EventView)
    requires
        judged(candidate, output, readings_of(candidate, output)) == Ok::<_, ErrorView>(
            Some(event),
        ),
    ensures
        event.deadline.valid(),
        in_term(event.deadline.day()),
{
    let evidence = output.due_evidence->0;
    lemma_group_times(all_groups(SOURCE_TIME@, evidence));
}

/// An event is accepted only with a day of the term that the deadline clause of the schedule text
/// and the evidence both name, and that falls on the weekday which each names first, if it names
/// any, with evidence that stands in that clause, with the column of the item, with links of
/// the item, and with a title and a body that are there, are not too long and hold no address.
pub proof fn law_accepted_event(candidate: CandidateView, output: OutputView, event: EventView)
    requires
        model_verdict(candidate, output) == Ok::<_, ErrorView>(Some(event)),
    ensures
        output.status == ModelStatus::Event,
        event.deadline.valid(),
        in_term(event.deadline.day()),
        output.due_evidence matches Some(evidence) && {
            &&& has_part(candidate.source_text, evidence)
            &&& clause_of(candidate.source_text) matches Some(clause) && has_part(clause, evidence)
                && date_evidence_problem(clause, event.deadline.day()) is None && (weekday_in(
                clause,
            ) matches Some(name) ==> weekday_named(name) == Some(event.deadline.day().day_of_week()))
            &&& date_evidence_problem(evidence, event.deadline.day()) is None
        },
        output.due_date matches Some(text) && parsed_date(text, "%Y-%m-%d"@) == Some(
            event.deadline.day(),
        ),
        event.classification == candidate.kind,
        event.link_ids == output.link_ids,
        are_link_ids(candidate.links, event.link_ids),
        event.title == normalized(output.title),
        event.body == trimmed(output.body),
        0 < event.title.len() <= 120,
        0 < event.body.len() <= 2000,
        first_match(ADDRESS_MARK@, event.title) is None,
        first_match(ADDRESS_MARK@, event.body) is None,
{
    lemma_judged_event(candidate, output, event);
}

/// A deadline clause that speaks of the end of class makes a deadline at a quarter to two. Else
/// the time of the evidence makes a deadline at that time, and a time of the clause is the same.
/// Without any time the deadline is the whole day.
pub proof fn law_time_of_deadline(candidate: CandidateView, output: OutputView, event: EventView)
    requires
        model_verdict(candidate, output) == Ok::<_, ErrorView>(Some(event)),
    ensures
        ({
            let clause = clause_of(candidate.source_text)->0;
            let evidence = output.due_evidence->0;
            let date = event.deadline.day();
            if has_part(unicode_lowercase(clause), "end of class"@) {
                event.deadline == (Deadline::Timed {
                    local: DateTime {
                        date,
                        time: Time { hour: 13, minute: 45, second: 0, nanosecond: 0 },
                    },
                })
            } else {
                match source_time(evidence) {
                    Ok(Some(time)) => {
                        &&& event.deadline == (Deadline::Timed { local: DateTime { date, time } })
                        &&& source_time(clause) matches Ok(whole) && (whole is Some ==> whole
                            == Some(time))
                    },
                    Ok(None) => {
                        &&& event.deadline == (Deadline::AllDay { date })
                        &&& source_time(clause) matches Ok(whole) && whole is None
                    },
                    Err(_) => false,
                }
            }
        }),
{
}

/// A date in the deadline clause of an item cannot be passed over: a reply either makes an event
/// of the item or is refused.
pub proof fn law_explicit_date_is_not_passed_over(candidate: CandidateView, output: OutputView)
    requires
        clause_of(candidate.source_text) matches Some(clause) && first_match(
            NUMERIC_DATE@,
            clause,
        ) is Some,
    ensures
        model_verdict(candidate, output) matches Ok(event) ==> event is Some,
{
}

/// No reply can choose the day of an event: the replies that are accepted for an item all give the
/// day that its deadline clause names, and where the clause names a time or the end of class, the
/// same deadline.
pub proof fn law_source_decides_the_day(
    candidate: CandidateView,
    output: OutputView,
    event: EventView,
    other_output: OutputView,
    other: EventView,
)
    requires
        model_verdict(candidate, output) == Ok::<_, ErrorView>(Some(event)),
        model_verdict(candidate, other_output) == Ok::<_, ErrorView>(Some(other)),
    ensures
        event.deadline.day() == other.deadline.day(),
        ({
            let clause = clause_of(candidate.source_text)->0;
            has_part(unicode_lowercase(clause), "end of class"@) || source_time(
                clause,
            ) matches Ok(Some(_))
        }) ==> event.deadline == other.deadline,
{
    law_accepted_event(candidate, output, event);
    law_accepted_event(candidate, other_output, other);
    law_time_of_deadline(candidate, output, event);
    law_time_of_deadline(candidate, other_output, other);
}

/// One more identifier is that of a link, and has not come before.
pub proof fn law_link_ids(links: Seq<LinkView>, ids: Seq<Seq<char>>, id: Seq<char>)
    ensures
        are_link_ids(links, seq![]),
        are_link_ids(links, ids.push(id)) <==> are_link_ids(links, ids) && !ids.contains(id)
            && exists|k: int| 0 <= k < links.len() && (#[trigger] links[k]).id == id,
{
    let all = ids.push(id);
    assert(forall|i: int| 0 <= i < ids.len() ==> all[i] == #[trigger] ids[i]);
    assert(all[ids.len() as int] == id);
    if are_link_ids(links, all) {
        assert(is_known(links, all[ids.len() as int]));
        assert forall|i: int| 0 <= i < ids.len() implies is_known(links, #[trigger] ids[i]) by {
            assert(is_known(links, all[i]));
        }
        if ids.contains(id) {
            let i = choose|i: int| 0 <= i < ids.len() && ids[i] == id;
            assert(all[i] != all[ids.len() as int]);
        }
        assert forall|i: int, j: int| 0 <= i < j < ids.len() implies #[trigger] ids[i]
            != #[trigger] ids[j] by {
            assert(all[i] != all[j]);
        }
    }
    if are_link_ids(links, ids) && !ids.contains(id) && exists|k: int|
        0 <= k < links.len() && (#[trigger] links[k]).id == id {
        assert forall|i: int| 0 <= i < all.len() implies is_known(links, #[trigger] all[i]) by {
            if i < ids.len() {
                assert(is_known(links, ids[i]));
            }
        }
        assert forall|i: int, j: int| 0 <= i < j < all.len() implies #[trigger] all[i]
            != #[trigger] all[j] by {
            if j < ids.len() {
                assert(ids[i] != ids[j]);
            } else {
                assert(ids.contains(ids[i]));
            }
        }
    }
}

/// What does not depend on whether a reply reports an event: it is about the column of its item,
/// names links of it once each, and the item has one date.
pub open spec fn fits_item(candidate: CandidateView, output: OutputView) -> bool {
    &&& forall|i: int, j: int|
        0 <= i < all_matches(NUMERIC_DATE@, candidate.source_text).len() && 0 <= j < all_matches(
            NUMERIC_DATE@,
            candidate.source_text,
        ).len() ==> #[trigger] all_matches(NUMERIC_DATE@, candidate.source_text)[i]
            == #[trigger] all_matches(NUMERIC_DATE@, candidate.source_text)[j]
    &&& output.classification == candidate.kind
    &&& are_link_ids(candidate.links, output.link_ids)
}

/// A reply that reports no event is accepted exactly where it fits its item, says nothing of a
/// deadline, and the deadline clause of the item, if it has one, holds no date.
pub proof fn law_silence(candidate: CandidateView, output: OutputView)
    requires
        output.status == ModelStatus::NoExplicitDeadline || output.status
            == ModelStatus::NotAssignment,
    ensures
        model_verdict(candidate, output) == Ok::<Option<EventView>, ErrorView>(None) <==> {
            &&& fits_item(candidate, output)
            &&& output.due_evidence is None && output.due_date is None && output.due_time is None
            &&& clause_of(candidate.source_text) matches Some(clause) ==> first_match(
                NUMERIC_DATE@,
                clause,
            ) is None
        },
        !(model_verdict(candidate, output) matches Ok(Some(_))),
{
}

/// A reply that calls the deadline ambiguous is never accepted, and neither is one that does not
/// fit its item, whatever it reports.
pub proof fn law_unfit_reply_is_refused(candidate: CandidateView, output: OutputView)
    requires
        output.status == ModelStatus::Ambiguous || !fits_item(candidate, output),
    ensures
        model_verdict(candidate, output) is Err,
{
}

/// Whether a reply reports an event with a title and a body of fit lengths and without addresses,
/// and with evidence and a date of the term that the evidence and the deadline clause both name.
pub open spec fn supports_day(
    candidate: CandidateView,
    output: OutputView,
    clause: Seq<char>,
    evidence: Seq<char>,
    date: Date,
) -> bool {
    &&& output.status == ModelStatus::Event
    &&& 0 < normalized(output.title).len() <= 120
    &&& 0 < trimmed(output.body).len() <= 2000
    &&& first_match(ADDRESS_MARK@, normalized(output.title)) is None
    &&& first_match(ADDRESS_MARK@, trimmed(output.body)) is None
    &&& output.due_evidence == Some(evidence)
    &&& trimmed(evidence).len() > 0
    &&& has_part(candidate.source_text, evidence)
    &&& clause_of(candidate.source_text) == Some(clause)
    &&& has_part(clause, evidence)
    &&& output.due_date matches Some(text) && parsed_date(text, "%Y-%m-%d"@) == Some(date)
    &&& date.valid() && date.year == 2026 && date.month >= 8
    &&& date_evidence_problem(evidence, date) is None
    &&& date_evidence_problem(clause, date) is None
}

/// The deadline that a clause, the evidence and a due time make on a day: a quarter to two where
/// the clause speaks of the end of class and the due time says so, else the time of the evidence
/// and of the clause where the due time repeats it, else the whole day where nobody gives a time.
pub open spec fn makes_deadline(
    output: OutputView,
    clause: Seq<char>,
    evidence: Seq<char>,
    date: Date,
    deadline: Deadline,
) -> bool {
    let own = source_time(evidence);
    let whole = source_time(clause);
    &&& own is Ok && whole is Ok
    &&& whole->Ok_0 is Some ==> own == whole
    &&& if has_part(unicode_lowercase(clause), "end of class"@) {
        &&& output.due_time == Some("end_of_class"@)
        &&& deadline == (Deadline::Timed {
            local: DateTime {
                date,
                time: Time { hour: 13, minute: 45, second: 0, nanosecond: 0 },
            },
        })
    } else {
        match own->Ok_0 {
            Some(time) => {
                &&& output.due_time matches Some(text) && parsed_time(text, "%H:%M"@) == Some(time)
                &&& deadline == (Deadline::Timed { local: DateTime { date, time } })
            },
            None => output.due_time is None && deadline == (Deadline::AllDay { date }),
        }
    }
}

/// A reply is accepted as an event exactly where it fits its item, supports a day, makes a
/// deadline on it, and a local time in that names one moment. The event has the title with its
/// white space reduced, the body without white space around it, and the column, the links and the
/// deadline that were given.
pub proof fn law_good_reply_is_accepted(
    candidate: CandidateView,
    output: OutputView,
    clause: Seq<char>,
    evidence: Seq<char>,
    date: Date,
    deadline: Deadline,
)
    requires
        fits_item(candidate, output),
        supports_day(candidate, output, clause, evidence, date),
        makes_deadline(output, clause, evidence, date, deadline),
        deadline matches Deadline::Timed { local } ==> los_angeles_utc(local) is Some,
    ensures
        model_verdict(candidate, output) == Ok::<_, ErrorView>(
            Some(
                EventView {
                    title: normalized(output.title),
                    body: trimmed(output.body),
                    classification: candidate.kind,
                    deadline,
                    link_ids: output.link_ids,
                },
            ),
        ),
{
    law_days_of_term(date);
}

/// Only a reply that fits its item, supports its day and makes its deadline is accepted as an
/// event.
pub proof fn law_accepted_reply_is_good(
    candidate: CandidateView,
    output: OutputView,
    event: EventView,
)
    requires
        model_verdict(candidate, output) == Ok::<_, ErrorView>(Some(event)),
        parsed_date(output.due_date->0, "%Y-%m-%d"@) matches Some(date) ==> date.valid(),
    ensures
        fits_item(candidate, output),
        supports_day(
            candidate,
            output,
            clause_of(candidate.source_text)->0,
            output.due_evidence->0,
            event.deadline.day(),
        ),
        makes_deadline(
            output,
            clause_of(candidate.source_text)->0,
            output.due_evidence->0,
            event.deadline.day(),
            event.deadline,
        ),
        event.deadline matches Deadline::Timed { local } ==> los_angeles_utc(local) is Some,
{
    law_accepted_event(candidate, output, event);
    law_days_of_term(event.deadline.day());
}

/// The first thing that is wrong with a reply decides what it is refused for: different dates in
/// the schedule text, then another column, then links that are unknown or repeated, then a deadline
/// that the reply itself calls ambiguous; then, without an event, fields of a deadline, or a date
/// that was passed over.
pub proof fn law_first_fault_of_reply(candidate: CandidateView, output: OutputView)
    ensures
        ({
            let verdict = model_verdict(candidate, output);
            let silent = output.status == ModelStatus::NoExplicitDeadline || output.status
                == ModelStatus::NotAssignment;
            let dates = all_matches(NUMERIC_DATE@, candidate.source_text);
            if exists|i: int, j: int|
                0 <= i < dates.len() && 0 <= j < dates.len() && #[trigger] dates[i]
                    != #[trigger] dates[j] {
                verdict matches Err(error) && error.kind == ErrorKind::MultipleDates
            } else if output.classification != candidate.kind {
                verdict matches Err(error) && error.kind == ErrorKind::ClassificationChanged
            } else if !are_link_ids(candidate.links, output.link_ids) {
                verdict matches Err(error) && error.kind == ErrorKind::BadLinkIds
            } else if output.status == ModelStatus::Ambiguous {
                verdict matches Err(error) && error.kind == ErrorKind::AmbiguousDeadline
            } else if silent && (output.due_evidence is Some || output.due_date is Some
                || output.due_time is Some) {
                verdict matches Err(error) && error.kind == ErrorKind::UnexpectedDeadlineFields
            } else if silent && (clause_of(candidate.source_text) matches Some(clause)
                && first_match(NUMERIC_DATE@, clause) is Some) {
                verdict matches Err(error) && error.kind == ErrorKind::SuppressedDeadline
            } else {
                silent ==> verdict == Ok::<Option<EventView>, ErrorView>(None)
            }
        }),
{
}

/// What an event that fits its item is refused for: an empty title or body, one that is too long,
/// an address in it, a missing part of the deadline, evidence that is not in the schedule text, no
/// deadline clause, evidence outside of it, a date that is none or outside the term, and then a
/// date that the evidence or the clause does not name.
pub proof fn law_first_fault_of_event(candidate: CandidateView, output: OutputView)
    requires
        fits_item(candidate, output),
        output.status == ModelStatus::Event,
    ensures
        ({
            let verdict = model_verdict(candidate, output);
            let title = normalized(output.title);
            let body = trimmed(output.body);
            let clause = clause_of(candidate.source_text);
            let evidence = output.due_evidence->0;
            let date = parsed_date(output.due_date->0, "%Y-%m-%d"@);
            if title.len() == 0 || body.len() == 0 {
                verdict matches Err(error) && error.kind == ErrorKind::EmptyPresentation
            } else if title.len() > 120 || body.len() > 2000 {
                verdict matches Err(error) && error.kind == ErrorKind::PresentationTooLong
            } else if first_match(ADDRESS_MARK@, title) is Some || first_match(
                ADDRESS_MARK@,
                body,
            ) is Some {
                verdict matches Err(error) && error.kind == ErrorKind::AddressInPresentation
            } else if output.due_evidence is None || output.due_date is None {
                verdict matches Err(error) && error.kind == ErrorKind::IncompleteDeadline
            } else if trimmed(evidence).len() == 0 || !has_part(candidate.source_text, evidence) {
                verdict matches Err(error) && error.kind == ErrorKind::EvidenceNotInSource
            } else if clause is None {
                verdict matches Err(error) && error.kind == ErrorKind::NoDeadlineClause
            } else if !has_part(clause->0, evidence) {
                verdict matches Err(error) && error.kind == ErrorKind::EvidenceOutsideClause
            } else if date is None {
                verdict matches Err(error) && error.kind == ErrorKind::InvalidDueDate
            } else if !in_term(date->0) {
                verdict matches Err(error) && error.kind == ErrorKind::OutsideTerm
            } else if date_evidence_problem(evidence, date->0) is Some {
                verdict matches Err(error) && Some(error) == date_evidence_problem(
                    evidence,
                    date->0,
                )
            } else if date_evidence_problem(clause->0, date->0) is Some {
                verdict matches Err(error) && Some(error) == date_evidence_problem(
                    clause->0,
                    date->0,
                )
            } else {
                true
            }
        }),
{
}

/// What keeps a day from becoming a deadline is told by kind.
pub proof fn law_kinds_of_bad_times(
    date: Date,
    time: Time,
    other: Time,
    due: Seq<char>,
    due_time: Option<Seq<char>>,
    read: Option<Time>,
    clause: Seq<char>,
)
    ensures
        at_end_of_class(clause) && due_time != Some("end_of_class"@) ==> (deadline_on(
            date,
            Some(time),
            due_time,
            read,
            clause,
        ) matches Err(error) && error.kind == ErrorKind::EndOfClassExpected),
        !at_end_of_class(clause) ==> {
            &&& deadline_on(date, Some(time), None, read, clause) matches Err(error) && error.kind
                == ErrorKind::DueTimeMissing
            &&& deadline_on(date, Some(time), Some(due), None, clause) matches Err(error)
                && error.kind == ErrorKind::InvalidDueTime && error.subject == due
            &&& other != time ==> (deadline_on(
                date,
                Some(time),
                Some(due),
                Some(other),
                clause,
            ) matches Err(error) && error.kind == ErrorKind::TimeMismatch)
            &&& deadline_on(date, None, Some(due), read, clause) matches Err(error) && error.kind
                == ErrorKind::InventedTime
        },
        other != time ==> (time_of_both(Ok(Some(other)), Ok(Some(time))) matches Err(error)
            && error.kind == ErrorKind::SourceTimeOmitted),
        time_of_both(Ok(None), Ok(Some(time))) matches Err(error) && error.kind
            == ErrorKind::SourceTimeOmitted,
{
}

} // verus!
