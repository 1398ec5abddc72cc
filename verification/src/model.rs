//! The data of the feed: schedule items, model replies, stored events and the public state.

use vstd::prelude::*;

use crate::clock::{Date, DateTime};
use crate::text::{opt_view, views};

verus! {

/// The page that the schedule is read from.
pub const SCHEDULE_URL: &'static str = "https://data385.netlify.app/schedule";

/// Where the published state lies.
pub const STATE_URL: &'static str = "https://lomzem.github.io/chronatello/_state.json";

/// Where the published calendar lies.
pub const CALENDAR_URL: &'static str = "https://lomzem.github.io/chronatello/calendar.ics";

/// The model that edits schedule items.
pub const MODEL: &'static str = "gemini-3.5-flash-lite";

/// The version of the state format.
pub const SCHEMA_VERSION: u32 = 1;

/// A link of a schedule item.
#[derive(Clone, Debug, PartialEq, Eq)]
pub struct SourceLink {
    pub id: String,
    pub text: String,
    pub url: String,
}

/// The column that a schedule item comes from.
#[derive(Clone, Copy, Debug, PartialEq, Eq, Structural)]
pub enum CandidateKind {
    Assignment,
    InClass,
}

/// A schedule item that may carry a deadline.
#[derive(Clone, Debug, PartialEq, Eq)]
pub struct Candidate {
    pub source_key: String,
    pub fingerprint: String,
    pub source_text: String,
    pub row_date: String,
    pub links: Vec<SourceLink>,
    pub kind: CandidateKind,
}

/// What the model makes of a schedule item.
#[derive(Clone, Copy, Debug, PartialEq, Eq, Structural)]
pub enum ModelStatus {
    Event,
    NoExplicitDeadline,
    NotAssignment,
    Ambiguous,
}

/// A reply of the model.
#[derive(Clone, Debug, PartialEq, Eq)]
pub struct ModelOutput {
    pub status: ModelStatus,
    pub title: String,
    pub body: String,
    pub classification: CandidateKind,
    pub due_evidence: Option<String>,
    pub due_date: Option<String>,
    pub due_time: Option<String>,
    pub link_ids: Vec<String>,
}

/// When something is due: on a day, or at a local time in Los Angeles.
#[derive(Clone, Copy, Debug, PartialEq, Eq, Structural)]
pub enum Deadline {
    AllDay { date: Date },
    Timed { local: DateTime },
}

/// An accepted event.
#[derive(Clone, Debug, PartialEq, Eq)]
pub struct StoredEvent {
    pub title: String,
    pub body: String,
    pub classification: CandidateKind,
    pub deadline: Deadline,
    pub link_ids: Vec<String>,
}

/// What is kept of a schedule item. `updated_at` is in UTC.
#[derive(Clone, Debug, PartialEq, Eq)]
pub struct Record {
    pub source_key: String,
    pub fingerprint: String,
    pub uid: String,
    pub source_text: String,
    pub links: Vec<SourceLink>,
    pub event: Option<StoredEvent>,
    pub active: bool,
    pub sequence: u32,
    pub updated_at: DateTime,
}

/// The public state. `generated_at` is in UTC.
#[derive(Clone, Debug, PartialEq, Eq)]
pub struct State {
    pub version: u32,
    pub schedule_url: String,
    pub generated_at: DateTime,
    pub records: Vec<Record>,
}

/// What a failure is about.
#[derive(Clone, Copy, Debug, PartialEq, Eq, Structural)]
pub enum ErrorKind {
    /// No table has the headers of the schedule.
    TableNotFound,
    /// A schedule row has no date.
    RowWithoutDate,
    /// The date of a schedule row is none.
    InvalidRowDate,
    /// The digits of a date or a time are no number.
    InvalidNumber,
    /// The name of a weekday is none.
    UnsupportedWeekday,
    /// A date is not on the weekday beside it.
    WeekdayMismatch,
    /// A reference of a schedule item leads nowhere.
    InvalidSourceUrl,
    /// A reference of a schedule item leads off the web.
    UnsupportedSourceUrl,
    /// The schedule holds no items.
    NoCandidates,
    /// Two schedule items have the same source.
    DuplicateSource,
    /// A schedule text holds two different dates.
    MultipleDates,
    /// A reply names another column than that of its item.
    ClassificationChanged,
    /// A reply names a link twice, or one that its item does not have.
    BadLinkIds,
    /// A reply calls the deadline ambiguous.
    AmbiguousDeadline,
    /// A reply without an event has a deadline.
    UnexpectedDeadlineFields,
    /// A reply without an event is about a text with a deadline.
    SuppressedDeadline,
    /// The title or the body of a reply is empty.
    EmptyPresentation,
    /// The title or the body of a reply is too long.
    PresentationTooLong,
    /// The title or the body of a reply holds a web address.
    AddressInPresentation,
    /// A reply with an event lacks the evidence or the date.
    IncompleteDeadline,
    /// The evidence does not stand in the schedule text.
    EvidenceNotInSource,
    /// The schedule text has no deadline clause.
    NoDeadlineClause,
    /// The evidence does not stand in the deadline clause.
    EvidenceOutsideClause,
    /// The due date of a reply is none.
    InvalidDueDate,
    /// The due date of a reply is outside the term.
    OutsideTerm,
    /// The evidence holds no date in digits.
    NoNumericDate,
    /// The date of the evidence is none.
    InvalidEvidenceDate,
    /// The evidence names another day than the reply.
    DateMismatch,
    /// A time in the schedule text is none.
    InvalidSourceTime,
    /// A text gives two different times.
    MultipleTimes,
    /// The evidence leaves out or changes the time of the clause.
    SourceTimeOmitted,
    /// A reply does not repeat that the deadline is the end of class.
    EndOfClassExpected,
    /// A reply leaves out the time of the evidence.
    DueTimeMissing,
    /// The due time of a reply is none.
    InvalidDueTime,
    /// The due time of a reply is not that of the evidence.
    TimeMismatch,
    /// A reply gives a time that the evidence does not give.
    InventedTime,
    /// A local time names no moment, or two.
    NotUniqueLocalTime,
    /// A state is of another version or of another schedule.
    ForeignState,
    /// Two records of a state share a source or an identifier.
    DuplicateIdentities,
    /// An identifier of a state is not that of its source.
    InvalidUid,
    /// An active record of a state has no event.
    ActiveWithoutEvent,
    /// A link of a state is no address.
    InvalidStateUrl,
    /// A link of a state leads off the web.
    UnsupportedStateUrl,
    /// There are no items to reconcile with.
    EmptyCandidates,
    /// Two items to reconcile with have the same source.
    DuplicateCandidate,
    /// There is no reply about an item.
    ClassifierFailed,
    /// A changed item would lose its event.
    EventLost,
    /// There is no next revision number.
    SequenceOverflow,
    /// More than half of the active events would go.
    TooManyRemovals,
    /// There is no day after a deadline.
    DeadlineOverflow,
    /// A line of a calendar cannot be folded.
    CalendarUnfoldable,
    /// A calendar cannot be read back.
    CalendarUnreadable,
    /// A line of a calendar is too long or has no end.
    BadContentLines,
    /// A document is not JSON of the expected form.
    NotJson,
    /// The model refuses to answer.
    ModelRefused,
    /// An answer of the model has no parts.
    NoStructuredContent,
    /// No part of an answer of the model has a text.
    NoStructuredText,
    /// An identity by hand, or its text, is empty.
    EmptyOverride,
    /// An answer has a status that nothing can be done with.
    UnexpectedStatus,
    /// There may be a calendar, but there is no state.
    UnsafeBootstrap,
    /// The schedule page does not come from its site.
    UntrustedOrigin,
    /// The key for the model is empty.
    EmptyApiKey,
    /// A body has too many bytes.
    TooLarge,
}

/// A failure: what it is about, the text that it is about, and the schedule item at hand. Either
/// text is empty where there is none.
#[derive(Clone, Debug, PartialEq, Eq)]
pub struct Error {
    pub kind: ErrorKind,
    pub subject: String,
    pub context: String,
}

/// The contents of a link.
#[verifier::ext_equal]
pub struct LinkView {
    pub id: Seq<char>,
    pub text: Seq<char>,
    pub url: Seq<char>,
}

/// The contents of a schedule item.
#[verifier::ext_equal]
pub struct CandidateView {
    pub source_key: Seq<char>,
    pub fingerprint: Seq<char>,
    pub source_text: Seq<char>,
    pub row_date: Seq<char>,
    pub links: Seq<LinkView>,
    pub kind: CandidateKind,
}

/// The contents of a reply.
#[verifier::ext_equal]
pub struct OutputView {
    pub status: ModelStatus,
    pub title: Seq<char>,
    pub body: Seq<char>,
    pub classification: CandidateKind,
    pub due_evidence: Option<Seq<char>>,
    pub due_date: Option<Seq<char>>,
    pub due_time: Option<Seq<char>>,
    pub link_ids: Seq<Seq<char>>,
}

/// The contents of an event.
#[verifier::ext_equal]
pub struct EventView {
    pub title: Seq<char>,
    pub body: Seq<char>,
    pub classification: CandidateKind,
    pub deadline: Deadline,
    pub link_ids: Seq<Seq<char>>,
}

/// The contents of a record.
#[verifier::ext_equal]
pub struct RecordView {
    pub source_key: Seq<char>,
    pub fingerprint: Seq<char>,
    pub uid: Seq<char>,
    pub source_text: Seq<char>,
    pub links: Seq<LinkView>,
    pub event: Option<EventView>,
    pub active: bool,
    pub sequence: u32,
    pub updated_at: DateTime,
}

/// The contents of a state.
#[verifier::ext_equal]
pub struct StateView {
    pub version: u32,
    pub schedule_url: Seq<char>,
    pub generated_at: DateTime,
    pub records: Seq<RecordView>,
}

/// The contents of a failure.
#[verifier::ext_equal]
pub struct ErrorView {
    pub kind: ErrorKind,
    pub subject: Seq<char>,
    pub context: Seq<char>,
}

impl View for SourceLink {
    type V = LinkView;

    open spec fn view(&self) -> LinkView {
        LinkView { id: self.id@, text: self.text@, url: self.url@ }
    }
}

impl View for Candidate {
    type V = CandidateView;

    open spec fn view(&self) -> CandidateView {
        CandidateView {
            source_key: self.source_key@,
            fingerprint: self.fingerprint@,
            source_text: self.source_text@,
            row_date: self.row_date@,
            links: views(self.links@),
            kind: self.kind,
        }
    }
}

impl View for ModelOutput {
    type V = OutputView;

    open spec fn view(&self) -> OutputView {
        OutputView {
            status: self.status,
            title: self.title@,
            body: self.body@,
            classification: self.classification,
            due_evidence: opt_view(self.due_evidence),
            due_date: opt_view(self.due_date),
            due_time: opt_view(self.due_time),
            link_ids: views(self.link_ids@),
        }
    }
}

impl View for StoredEvent {
    type V = EventView;

    open spec fn view(&self) -> EventView {
        EventView {
            title: self.title@,
            body: self.body@,
            classification: self.classification,
            deadline: self.deadline,
            link_ids: views(self.link_ids@),
        }
    }
}

impl View for Record {
    type V = RecordView;

    open spec fn view(&self) -> RecordView {
        RecordView {
            source_key: self.source_key@,
            fingerprint: self.fingerprint@,
            uid: self.uid@,
            source_text: self.source_text@,
            links: views(self.links@),
            event: opt_view(self.event),
            active: self.active,
            sequence: self.sequence,
            updated_at: self.updated_at,
        }
    }
}

impl View for State {
    type V = StateView;

    open spec fn view(&self) -> StateView {
        StateView {
            version: self.version,
            schedule_url: self.schedule_url@,
            generated_at: self.generated_at,
            records: views(self.records@),
        }
    }
}

impl View for Error {
    type V = ErrorView;

    open spec fn view(&self) -> ErrorView {
        ErrorView { kind: self.kind, subject: self.subject@, context: self.context@ }
    }
}

impl Deadline {
    /// Whether the deadline names a day or a moment that the calendar has.
    pub open spec fn valid(self) -> bool {
        match self {
            Deadline::AllDay { date } => date.valid(),
            Deadline::Timed { local } => local.valid(),
        }
    }

    /// The day of the deadline.
    pub open spec fn day(self) -> Date {
        match self {
            Deadline::AllDay { date } => date,
            Deadline::Timed { local } => local.date,
        }
    }
}

impl RecordView {
    /// Whether the dates and times of the record are ones that the calendar has.
    pub open spec fn dated(self) -> bool {
        &&& self.updated_at.valid()
        &&& self.event matches Some(event) ==> event.deadline.valid()
    }
}

impl StateView {
    /// Whether the dates and times of the state are ones that the calendar has.
    pub open spec fn dated(self) -> bool {
        &&& self.generated_at.valid()
        &&& forall|i: int| 0 <= i < self.records.len() ==> (#[trigger] self.records[i]).dated()
    }
}

/// A failure that is about a text.
pub open spec fn failure(kind: ErrorKind, subject: Seq<char>) -> ErrorView {
    ErrorView { kind, subject, context: seq![] }
}

/// A failure that is about no text in particular.
pub open spec fn plain_failure(kind: ErrorKind) -> ErrorView {
    failure(kind, seq![])
}

/// A failure met while a schedule item was at hand.
pub open spec fn in_context(error: ErrorView, context: Seq<char>) -> ErrorView {
    ErrorView { context, ..error }
}

/// What a result holds, by view.
pub open spec fn result_view<T: View>(result: Result<T, Error>) -> Result<T::V, ErrorView> {
    match result {
        Ok(value) => Ok(value@),
        Err(error) => Err(error@),
    }
}

/// What a check found, by view.
pub open spec fn check_view(result: Result<(), Error>) -> Option<ErrorView> {
    match result {
        Ok(_) => None,
        Err(error) => Some(error@),
    }
}

impl Error {
    /// A failure that is about a text.
    pub fn about(kind: ErrorKind, subject: &str) -> (r: Error)
        ensures
            r@ == failure(kind, subject@),
    {
        Error { kind, subject: subject.to_owned(), context: String::new() }
    }

    /// A failure that is about no text in particular.
    pub fn plain(kind: ErrorKind) -> (r: Error)
        ensures
            r@ == plain_failure(kind),
    {
        Error { kind, subject: String::new(), context: String::new() }
    }

    /// The failure with the schedule item that was at hand.
    pub fn within(self, context: &str) -> (r: Error)
        ensures
            r@ == in_context(self@, context@),
    {
        Error { kind: self.kind, subject: self.subject, context: context.to_owned() }
    }
}

impl State {
    /// A state without records.
    pub fn empty(now: DateTime) -> (r: Self)
        ensures
            r@ == (StateView {
                version: SCHEMA_VERSION,
                schedule_url: SCHEDULE_URL@,
                generated_at: now,
                records: seq![],
            }),
    {
        let r = State {
            version: SCHEMA_VERSION,
            schedule_url: SCHEDULE_URL.to_owned(),
            generated_at: now,
            records: Vec::new(),
        };
        assert(views(r.records@) =~= seq![]);
        r
    }
}

/// Whoever turns schedule items into replies. A failure comes with a message.
pub trait Classifier {
    fn classify(&self, candidate: &Candidate) -> Result<ModelOutput, String>;
}

} // verus!
