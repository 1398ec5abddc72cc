//! What may be read, what may be published, and in which steps the public directory is replaced.

use vstd::prelude::*;
use vstd::string::*;
use vstd::utf8::encode_utf8;

use crate::calendar::{calendar, calendar_of, can_be_written, can_write, check_calendar};
use crate::evidence::plain_result;
use crate::ics::{read_problem, reading_problem};
use crate::model::{
    check_view, failure, plain_failure, result_view, Error, ErrorKind, ErrorView, State, StateView, CALENDAR_URL,
    STATE_URL,
};
use crate::publication::{
    all_files, is_run, law_publication_leaves_new_files, phase_with, Contents, Phase, Places,
    PublicFile, Report,
};
use crate::reading::{can_be_read, can_read};
use crate::text::{
    concat, decimal, decimal_text, is_core_at, is_space, law_trimmed, opt_view, same_text, trim,
    trimmed,
};

verus! {

/// The most bytes that the schedule page may have.
pub const MAX_SCHEDULE_BYTES: usize = 1_000_000;

/// The most bytes that the published state may have.
pub const MAX_STATE_BYTES: usize = 1_000_000;

/// The page that leads to the calendar.
pub const INDEX_PAGE: &'static str =
    "<!doctype html>\n<html lang=\"en\"><meta charset=\"utf-8\"><meta name=\"viewport\" content=\"width=device-width\"><title>DATA 385 Fall 2026 calendar</title><body><h1>DATA 385 Fall 2026</h1><p><a href=\"calendar.ics\">Subscribe to the assignment calendar</a></p></body></html>\n";

/// The most bytes that a line of a calendar may have.
pub const MAX_LINE_BYTES: usize = 75;

/// What is wrong with a key for the model: it holds nothing but white space.
pub open spec fn key_problem(key: Seq<char>) -> Option<ErrorView> {
    if trimmed(key).len() == 0 {
        Some(plain_failure(ErrorKind::EmptyApiKey))
    } else {
        None
    }
}

/// Checks a key for the model.
pub fn check_key(key: &str) -> (r: Result<(), Error>)
    ensures
        check_view(r) == key_problem(key@),
{
    let bare: String = trim(key);
    if bare.as_str().is_empty() {
        Err(Error::plain(ErrorKind::EmptyApiKey))
    } else {
        Ok(())
    }
}

/// What is wrong with the length that a body is said to have.
pub open spec fn declared_problem(declared: Option<u64>, limit: usize, label: Seq<char>) -> Option<
    ErrorView,
> {
    match declared {
        Some(length) => if length > limit {
            Some(failure(ErrorKind::TooLarge, label))
        } else {
            None
        },
        None => None,
    }
}

/// Checks the length that a body is said to have, before it is read.
pub fn check_declared(declared: Option<u64>, limit: usize, label: &str) -> (r: Result<(), Error>)
    ensures
        check_view(r) == declared_problem(declared, limit, label@),
{
    match declared {
        Some(length) => if length > limit as u64 {
            Err(Error::about(ErrorKind::TooLarge, label))
        } else {
            Ok(())
        },
        None => Ok(()),
    }
}

/// Checks the length of a body that was read.
pub fn check_received(length: usize, limit: usize, label: &str) -> (r: Result<(), Error>)
    ensures
        check_view(r) == declared_problem(Some(length as u64), limit, label@),
{
    if length > limit {
        Err(Error::about(ErrorKind::TooLarge, label))
    } else {
        Ok(())
    }
}

/// Whether an answer comes from where the schedule is published.
pub open spec fn is_trusted_origin(scheme: Seq<char>, host: Option<Seq<char>>) -> bool {
    scheme == "https"@ && host == Some("data385.netlify.app"@)
}

/// Whether a status tells of success.
pub open spec fn is_success(status: u16) -> bool {
    200 <= status < 300
}

/// What is wrong with the head of the answer that the schedule page comes in.
pub open spec fn schedule_problem(
    scheme: Seq<char>,
    host: Option<Seq<char>>,
    status: u16,
) -> Option<ErrorView> {
    if !is_trusted_origin(scheme, host) {
        Some(plain_failure(ErrorKind::UntrustedOrigin))
    } else if !is_success(status) {
        Some(failure(ErrorKind::UnexpectedStatus, decimal_text(status as nat)))
    } else {
        None
    }
}

/// Makes the failure of an unexpected status.
fn status_failure(kind: ErrorKind, status: u16) -> (r: Error)
    ensures
        r@ == failure(kind, decimal_text(status as nat)),
{
    let number: String = decimal(status as u64);
    Error::about(kind, number.as_str())
}

/// Checks the head of the answer that the schedule page comes in.
pub fn check_schedule_answer(scheme: &str, host: &Option<String>, status: u16) -> (r: Result<
    (),
    Error,
>)
    ensures
        check_view(r) == schedule_problem(scheme@, opt_view(*host), status),
{
    let own_host: bool = match host {
        Some(name) => same_text(name.as_str(), "data385.netlify.app"),
        None => false,
    };
    if !same_text(scheme, "https") || !own_host {
        return Err(Error::plain(ErrorKind::UntrustedOrigin));
    }
    if status < 200 || status >= 300 {
        return Err(status_failure(ErrorKind::UnexpectedStatus, status));
    }
    Ok(())
}

/// What to do after the answer to a request for the published state.
#[derive(Clone, Copy, Debug, PartialEq, Eq, Structural)]
pub enum StateStep {
    ReadState,
    AskForCalendar,
}

/// What follows from the status of the answer to a request for the published state: it is there,
/// or it is not and the calendar decides.
pub open spec fn state_step(status: u16) -> Result<StateStep, ErrorView> {
    if is_success(status) {
        Ok(StateStep::ReadState)
    } else if status != 404 {
        Err(failure(ErrorKind::UnexpectedStatus, decimal_text(status as nat)))
    } else {
        Ok(StateStep::AskForCalendar)
    }
}

/// Decides what follows from the status of the answer to a request for the published state.
pub fn after_state_answer(status: u16) -> (r: Result<StateStep, Error>)
    ensures
        plain_result(r) == state_step(status),
{
    if 200 <= status && status < 300 {
        Ok(StateStep::ReadState)
    } else if status != 404 {
        Err(status_failure(ErrorKind::UnexpectedStatus, status))
    } else {
        Ok(StateStep::AskForCalendar)
    }
}

/// What is wrong with starting from nothing, where the answer to a request for the published
/// calendar has this status: a calendar without its state would lose its events.
pub open spec fn bootstrap_problem(status: u16) -> Option<ErrorView> {
    if status != 404 {
        Some(failure(ErrorKind::UnsafeBootstrap, decimal_text(status as nat)))
    } else {
        None
    }
}

/// Decides whether to start from nothing.
pub fn after_calendar_answer(status: u16) -> (r: Result<(), Error>)
    ensures
        check_view(r) == bootstrap_problem(status),
{
    if status != 404 {
        Err(status_failure(ErrorKind::UnsafeBootstrap, status))
    } else {
        Ok(())
    }
}

/// A start from nothing is made only where neither the state nor the calendar is published.
pub proof fn law_bootstrap_needs_absence(state_status: u16, calendar_status: u16)
    ensures
        (state_step(state_status) matches Ok(step) && step == StateStep::AskForCalendar
            && bootstrap_problem(calendar_status) is None) <==> (state_status == 404
            && calendar_status == 404),
{
}

/// Whether the lines of a text are short enough, where the line at hand already has `used` bytes.
/// Lines end with carriage return and line feed.
pub open spec fn lines_fit(bytes: Seq<u8>, used: nat) -> bool
    decreases bytes.len(),
{
    if bytes.len() == 0 {
        used <= MAX_LINE_BYTES
    } else if bytes.len() > 1 && bytes[0] == 13 && bytes[1] == 10 {
        used <= MAX_LINE_BYTES && lines_fit(bytes.skip(2), 0)
    } else {
        lines_fit(bytes.skip(1), used + 1)
    }
}

/// Whether a text is made of lines that are short enough, each of them ended.
pub open spec fn are_content_lines(bytes: Seq<u8>) -> bool {
    &&& bytes.len() >= 2
    &&& bytes[bytes.len() - 2] == 13
    &&& bytes[bytes.len() - 1] == 10
    &&& lines_fit(bytes, 0)
}

/// Tells whether a text is made of lines that are short enough, each of them ended.
fn check_lines(bytes: &[u8]) -> (r: bool)
    ensures
        r == are_content_lines(bytes@),
{
    let total: usize = bytes.len();
    if total < 2 || bytes[total - 2] != 13 || bytes[total - 1] != 10 {
        return false;
    }
    let mut used: usize = 0;
    let mut i: usize = 0;
    assert(bytes@.skip(0) =~= bytes@);
    while i < total
        invariant
            total == bytes@.len(),
            i <= total,
            used <= i,
            lines_fit(bytes@, 0) == lines_fit(bytes@.skip(i as int), used as nat),
        decreases total - i,
    {
        let ghost rest = bytes@.skip(i as int);
        assert(rest.skip(1) =~= bytes@.skip(i + 1));
        if i < total - 1 && bytes[i] == 13 && bytes[i + 1] == 10 {
            assert(rest.skip(2) =~= bytes@.skip(i + 2));
            if used > MAX_LINE_BYTES {
                return false;
            }
            used = 0;
            i = i + 2;
        } else {
            used = used + 1;
            i = i + 1;
        }
    }
    used <= MAX_LINE_BYTES
}

/// What is wrong with the text of a calendar, where reading it came to `reading`.
pub open spec fn text_problem(text: Seq<char>, reading: Option<Seq<char>>) -> Option<ErrorView> {
    match reading {
        Some(message) => Some(failure(ErrorKind::CalendarUnreadable, message)),
        None => if are_content_lines(encode_utf8(text)) {
            None
        } else {
            Some(plain_failure(ErrorKind::BadContentLines))
        },
    }
}

/// Checks the text of a calendar, where reading it came to `reading`.
pub fn check_calendar_text(text: &str, reading: &Option<String>) -> (r: Result<(), Error>)
    ensures
        check_view(r) == text_problem(text@, opt_view(*reading)),
{
    match reading {
        Some(message) => Err(Error::about(ErrorKind::CalendarUnreadable, message.as_str())),
        None => if check_lines(text.as_bytes()) {
            Ok(())
        } else {
            Err(Error::plain(ErrorKind::BadContentLines))
        },
    }
}

/// The text of the calendar that is published for a state: one whose lines can be folded, that can
/// be read back, and whose lines are short enough.
pub open spec fn published_text(state: StateView) -> Result<Seq<char>, ErrorView> {
    match calendar_of(state) {
        Err(error) => Err(error),
        Ok(text) => if !can_be_written(state) {
            Err(plain_failure(ErrorKind::CalendarUnfoldable))
        } else if !can_be_read(text) {
            Err(plain_failure(ErrorKind::CalendarUnreadable))
        } else {
            match text_problem(text, reading_problem(text)) {
                Some(error) => Err(error),
                None => Ok(text),
            }
        },
    }
}

/// Writes the calendar that is published for a state, and checks it.
pub fn published_calendar(state: &State) -> (r: Result<String, Error>)
    requires
        state@.dated(),
    ensures
        result_view(r) == published_text(state@),
{
    match check_calendar(state) {
        Err(error) => return Err(error),
        Ok(_) => {},
    }
    if !can_write(state) {
        return Err(Error::plain(ErrorKind::CalendarUnfoldable));
    }
    match calendar(state) {
        Err(error) => Err(error),
        Ok(text) => {
            if !can_read(text.as_str()) {
                return Err(Error::plain(ErrorKind::CalendarUnreadable));
            }
            let reading: Option<String> = read_problem(text.as_str());
            match check_calendar_text(text.as_str(), &reading) {
                Err(error) => Err(error),
                Ok(_) => Ok(text),
            }
        },
    }
}

/// What is published is the calendar of the state, one that can be read back, every line of which
/// is ended and short enough.
pub proof fn law_published_text(state: StateView, text: Seq<char>)
    requires
        published_text(state) == Ok::<_, ErrorView>(text),
    ensures
        calendar_of(state) == Ok::<_, ErrorView>(text),
        reading_problem(text) is None,
        are_content_lines(encode_utf8(text)),
{
}

/// The name of a public file.
pub open spec fn name_of_file(file: PublicFile) -> Seq<char> {
    match file {
        PublicFile::State => "_state.json"@,
        PublicFile::Calendar => "calendar.ics"@,
        PublicFile::Index => "index.html"@,
    }
}

/// Tells the name of a public file.
pub fn file_name(file: PublicFile) -> (r: &'static str)
    ensures
        r@ == name_of_file(file),
{
    match file {
        PublicFile::State => "_state.json",
        PublicFile::Calendar => "calendar.ics",
        PublicFile::Index => "index.html",
    }
}

/// The texts of the public files but for the page that leads to the calendar, which is fixed.
pub struct PublicTexts {
    pub state: String,
    pub calendar: String,
}

impl View for PublicTexts {
    type V = Map<PublicFile, Seq<char>>;

    open spec fn view(&self) -> Map<PublicFile, Seq<char>> {
        texts_with(self.state@, self.calendar@)
    }
}

/// The texts of all public files.
pub open spec fn texts_with(state: Seq<char>, calendar: Seq<char>) -> Map<PublicFile, Seq<char>> {
    map![
        PublicFile::State => state,
        PublicFile::Calendar => calendar,
        PublicFile::Index => INDEX_PAGE@,
    ]
}

impl PublicTexts {
    /// The text of a public file.
    pub fn text(&self, file: PublicFile) -> (r: &str)
        ensures
            r@ == self@[file],
    {
        match file {
            PublicFile::State => self.state.as_str(),
            PublicFile::Calendar => self.calendar.as_str(),
            PublicFile::Index => INDEX_PAGE,
        }
    }
}

/// The texts of the public files of a state, where `stored` is the state as it is stored. It ends
/// with a line end.
pub open spec fn public_texts_of(state: StateView, stored: Seq<char>) -> Result<
    Map<PublicFile, Seq<char>>,
    ErrorView,
> {
    match published_text(state) {
        Err(error) => Err(error),
        Ok(text) => Ok(texts_with(stored + "\n"@, text)),
    }
}

/// Makes the texts of the public files of a state that is stored as `stored`.
pub fn public_texts(state: &State, stored: &str) -> (r: Result<PublicTexts, Error>)
    requires
        state@.dated(),
    ensures
        result_view(r) == public_texts_of(state@, stored@),
{
    match published_calendar(state) {
        Err(error) => Err(error),
        Ok(calendar) => Ok(PublicTexts { state: concat(stored, "\n"), calendar }),
    }
}

/// A publication of a state that ends well leaves exactly three files in the public directory,
/// whatever was there before: the state as it is stored, the calendar of the state, which can be
/// read back and whose lines are ended and short enough, and the page that leads to it. Neither a
/// stage nor a backup is left.
pub proof fn law_state_is_published(
    state: StateView,
    stored: Seq<char>,
    texts: Map<PublicFile, Seq<char>>,
    reports: Seq<Report>,
    places: Seq<Places>,
)
    requires
        public_texts_of(state, stored) == Ok::<_, ErrorView>(texts),
        is_run(texts, reports, places),
        phase_with(reports) == Phase::Published,
    ensures
        places.last().public == Some(Contents::New { files: texts }),
        places.last().stage is None,
        places.last().backup is None,
        texts.dom() == all_files(),
        texts[PublicFile::State] == stored + "\n"@,
        calendar_of(state) == Ok::<_, ErrorView>(texts[PublicFile::Calendar]),
        reading_problem(texts[PublicFile::Calendar]) is None,
        are_content_lines(encode_utf8(texts[PublicFile::Calendar])),
        texts[PublicFile::Index] == INDEX_PAGE@,
{
    assert(texts.dom() =~= all_files());
    law_publication_leaves_new_files(texts, reports, places);
}

/// A key will do exactly where it has a character that is not white space.
pub proof fn law_key(key: Seq<char>)
    ensures
        key_problem(key) is None <==> exists|k: int|
            0 <= k < key.len() && !is_space(#[trigger] key[k]),
{
    law_trimmed(key);
    let core = trimmed(key);
    let from = choose|from: int| #[trigger] is_core_at(core, key, from);
    if core.len() > 0 {
        assert(key[from] == core[0]);
    } else if exists|k: int| 0 <= k < key.len() && !is_space(#[trigger] key[k]) {
        let k = choose|k: int| 0 <= k < key.len() && !is_space(#[trigger] key[k]);
        assert(is_space(key[k]));
    }
}

/// A body is refused exactly where its length is known and is over the limit.
pub proof fn law_length(length: u64, limit: usize, label: Seq<char>)
    ensures
        declared_problem(None, limit, label) is None,
        declared_problem(Some(length), limit, label) is None <==> length <= limit,
        declared_problem(Some(length), limit, label) matches Some(error) ==> error.subject == label
            && error.kind == ErrorKind::TooLarge,
{
}

/// The schedule is taken only from its own site over a safe connection, with a status of success.
pub proof fn law_schedule_answer(scheme: Seq<char>, host: Option<Seq<char>>, status: u16)
    ensures
        schedule_problem(scheme, host, status) is None <==> scheme == "https"@ && host == Some(
            "data385.netlify.app"@,
        ) && 200 <= status <= 299,
        scheme == "https"@ && host == Some("data385.netlify.app"@) && !(200 <= status <= 299) ==> (
        schedule_problem(scheme, host, status) matches Some(error) && error.subject
            == decimal_text(status as nat)),
{
}

/// A published state is read exactly where the status tells of success, the calendar decides where
/// it is missing, and any other status stops everything.
pub proof fn law_state_answer(status: u16)
    ensures
        state_step(status) == Ok::<_, ErrorView>(StateStep::ReadState) <==> 200 <= status <= 299,
        state_step(status) == Ok::<_, ErrorView>(StateStep::AskForCalendar) <==> status == 404,
        state_step(status) is Err <==> !(200 <= status <= 299) && status != 404,
{
}

/// A line that is ended fits exactly where it has at most 75 bytes, whatever stands behind it, and
/// the rest is held to the same.
pub proof fn law_lines_fit(line: Seq<u8>, rest: Seq<u8>, used: nat)
    requires
        forall|i: int|
            0 <= i < line.len() ==> !(#[trigger] line[i] == 13 && (i + 1 < line.len() && line[i + 1]
                == 10)),
    ensures
        lines_fit(line + seq![13u8, 10u8] + rest, used) <==> used + line.len() <= 75 && lines_fit(
            rest,
            0,
        ),
        lines_fit(line, used) <==> used + line.len() <= 75,
    decreases line.len(),
{
    let all = line + seq![13u8, 10u8] + rest;
    if line.len() == 0 {
        assert(all[0] == 13 && all[1] == 10);
        assert(all.skip(2) =~= rest);
    } else {
        let more = line.skip(1);
        assert forall|i: int| 0 <= i < more.len() implies !(#[trigger] more[i] == 13 && (i + 1
            < more.len() && more[i + 1] == 10)) by {
            assert(more[i] == line[i + 1]);
        }
        law_lines_fit(more, rest, used + 1);
        assert(all.skip(1) =~= more + seq![13u8, 10u8] + rest);
        assert(all[0] == line[0]);
        assert(all[1] == if line.len() > 1 {
            line[1]
        } else {
            13u8
        });
        assert(!(line[0] == 13 && (1 < line.len() && line[1] == 10)));
    }
}

/// The text of a calendar is right exactly where it can be read, ends with a line end, and all its
/// lines fit. What is said against reading it is kept.
pub proof fn law_calendar_text(text: Seq<char>, reading: Option<Seq<char>>)
    ensures
        ({
            let bytes = encode_utf8(text);
            text_problem(text, reading) is None <==> {
                &&& reading is None
                &&& bytes.len() >= 2 && bytes[bytes.len() - 2] == 13 && bytes[bytes.len() - 1] == 10
                &&& lines_fit(bytes, 0)
            }
        }),
        reading matches Some(message) ==> (text_problem(text, reading) matches Some(error)
            && error.kind == ErrorKind::CalendarUnreadable && error.subject == message),
{
}

/// A calendar is published exactly where the state has one, its lines can be folded, and its text
/// can be read and is right.
pub proof fn law_what_is_published(state: StateView, text: Seq<char>)
    ensures
        published_text(state) == Ok::<_, ErrorView>(text) <==> {
            &&& calendar_of(state) == Ok::<_, ErrorView>(text)
            &&& can_be_written(state)
            &&& can_be_read(text)
            &&& reading_problem(text) is None
            &&& are_content_lines(encode_utf8(text))
        },
{
}

/// The files have different names, the ones that the page and the feed look for.
pub proof fn law_file_names(file: PublicFile, other: PublicFile)
    ensures
        name_of_file(file) == name_of_file(other) <==> file == other,
        name_of_file(PublicFile::State) == "_state.json"@,
        name_of_file(PublicFile::Calendar) == "calendar.ics"@,
        name_of_file(PublicFile::Index) == "index.html"@,
{
    reveal_strlit("_state.json");
    reveal_strlit("calendar.ics");
    reveal_strlit("index.html");
    assert("_state.json"@.len() != "calendar.ics"@.len());
    assert("_state.json"@.len() != "index.html"@.len());
    assert("calendar.ics"@.len() != "index.html"@.len());
}

/// The limits on what is read, and where the feed is.
pub proof fn law_limits()
    ensures
        MAX_SCHEDULE_BYTES == 1_000_000,
        MAX_STATE_BYTES == 1_000_000,
        MAX_LINE_BYTES == 75,
        STATE_URL@ == "https://lomzem.github.io/chronatello/_state.json"@,
        CALENDAR_URL@ == "https://lomzem.github.io/chronatello/calendar.ics"@,
{
}

/// Each refusal is told by its kind, and an unwelcome status by its number.
pub proof fn law_kinds_of_refusal(
    key: Seq<char>,
    scheme: Seq<char>,
    host: Option<Seq<char>>,
    status: u16,
    text: Seq<char>,
    message: Seq<char>,
)
    ensures
        key_problem(key) matches Some(error) ==> error.kind == ErrorKind::EmptyApiKey,
        !(scheme == "https"@ && host == Some("data385.netlify.app"@)) ==> (schedule_problem(
            scheme,
            host,
            status,
        ) matches Some(error) && error.kind == ErrorKind::UntrustedOrigin),
        scheme == "https"@ && host == Some("data385.netlify.app"@) ==> (schedule_problem(
            scheme,
            host,
            status,
        ) matches Some(error) ==> error.kind == ErrorKind::UnexpectedStatus && error.subject
            == decimal_text(status as nat)),
        state_step(status) matches Err(error) ==> error.kind == ErrorKind::UnexpectedStatus
            && error.subject == decimal_text(status as nat),
        bootstrap_problem(status) matches Some(error) ==> error.kind == ErrorKind::UnsafeBootstrap
            && error.subject == decimal_text(status as nat),
        text_problem(text, Some(message)) matches Some(error) && error.kind
            == ErrorKind::CalendarUnreadable && error.subject == message,
        text_problem(text, None) matches Some(error) ==> error.kind == ErrorKind::BadContentLines,
{
}

/// A calendar that cannot be written is told from one that cannot be read.
pub proof fn law_kinds_of_unfit_calendars(state: StateView)
    ensures
        calendar_of(state) is Ok && !can_be_written(state) ==> (published_text(state) matches Err(
            error,
        ) && error.kind == ErrorKind::CalendarUnfoldable),
        (calendar_of(state) matches Ok(text) && can_be_written(state) && !can_be_read(text)) ==> (
        published_text(state) matches Err(error) && error.kind == ErrorKind::CalendarUnreadable),
{
}

} // verus!
