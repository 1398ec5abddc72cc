use chronatello::calendar::{can_write, calendar};
use chronatello::clock::{Date, DateTime, Time};
use chronatello::digest::uid_for;
use chronatello::evidence::{validate_meeting_date, validate_weekday};
use chronatello::extract::{extract_candidates, extract_candidates_with_overrides};
use chronatello::gemini::structured_text;
use chronatello::model::{
    Candidate, CandidateKind, Classifier, Deadline, Error, ErrorKind, ModelOutput, ModelStatus,
    Record, SourceLink, State, StoredEvent,
};
use chronatello::overrides::{parse_overrides, Overrides};
use chronatello::publish::{
    after_calendar_answer, after_state_answer, check_calendar_text, check_declared, check_key,
    check_received, check_schedule_answer,
};
use chronatello::reconcile::{reconcile, reconcile_replies};
use chronatello::state::validate_state;
use chronatello::validate::validate_model;

fn page(row_date: &str, in_class: &str, assignments: &str) -> String {
    format!(
        "<table><thead><tr><th>Week</th><th>Date</th><th>Topic</th><th>Prepare</th><th>Materials</th><th>In Class</th><th>Assignments</th></tr></thead><tbody><tr><td headers=\"date\">{row_date}</td><td headers=\"in_class\">{in_class}</td><td headers=\"assignments\">{assignments}</td></tr></tbody></table>"
    )
}

fn item(text: &str) -> Candidate {
    extract_candidates(&page("Tue 08/25", "", text)).unwrap().remove(0)
}

fn reply(evidence: &str, date: &str) -> ModelOutput {
    ModelOutput {
        status: ModelStatus::Event,
        title: "Homework".into(),
        body: "Do it.".into(),
        classification: CandidateKind::Assignment,
        due_evidence: Some(evidence.into()),
        due_date: Some(date.into()),
        due_time: None,
        link_ids: vec![],
    }
}

fn silence() -> ModelOutput {
    ModelOutput {
        status: ModelStatus::NoExplicitDeadline,
        title: String::new(),
        body: String::new(),
        classification: CandidateKind::Assignment,
        due_evidence: None,
        due_date: None,
        due_time: None,
        link_ids: vec![],
    }
}

fn noon(month: u32, day: u32) -> DateTime {
    DateTime {
        date: Date { year: 2026, month, day },
        time: Time { hour: 12, minute: 0, second: 0, nanosecond: 0 },
    }
}

fn record(source_key: &str) -> Record {
    Record {
        source_key: source_key.into(),
        fingerprint: "f".into(),
        uid: uid_for(source_key),
        source_text: "Homework Due Thu 8/27".into(),
        links: vec![],
        event: Some(StoredEvent {
            title: "Homework".into(),
            body: "Do it.".into(),
            classification: CandidateKind::Assignment,
            deadline: Deadline::AllDay { date: Date { year: 2026, month: 8, day: 27 } },
            link_ids: vec![],
        }),
        active: true,
        sequence: 0,
        updated_at: noon(8, 1),
    }
}

fn state_of(records: Vec<Record>) -> State {
    let mut state = State::empty(noon(8, 1));
    state.records = records;
    state
}

struct Never;

impl Classifier for Never {
    fn classify(&self, _: &Candidate) -> Result<ModelOutput, String> {
        Err("nobody is here".into())
    }
}

fn kind_of<T: std::fmt::Debug>(result: Result<T, Error>) -> ErrorKind {
    result.unwrap_err().kind
}

fn refusal(text: &str, output: ModelOutput) -> ErrorKind {
    kind_of(validate_model(&item(text), output))
}

#[test]
fn pages_without_the_schedule_are_refused() {
    assert_eq!(kind_of(extract_candidates("<p>nothing</p>")), ErrorKind::TableNotFound);
    let short = page("Tue 08/25", "", "hw01").replace("<th>Week</th>", "");
    assert_eq!(kind_of(extract_candidates(&short)), ErrorKind::TableNotFound);
}

#[test]
fn rows_without_a_good_date_are_refused() {
    assert_eq!(kind_of(extract_candidates(&page(" ", "", "hw01"))), ErrorKind::RowWithoutDate);
    let bare = page("x", "", "hw01").replace("headers=\"date\"", "");
    assert_eq!(kind_of(extract_candidates(&bare)), ErrorKind::RowWithoutDate);
    let error = extract_candidates(&page("Someday", "", "hw01")).unwrap_err();
    assert_eq!(error.kind, ErrorKind::InvalidRowDate);
    assert_eq!(error.subject, "Someday");
    assert_eq!(kind_of(validate_meeting_date("Tue 13/45")), ErrorKind::InvalidRowDate);
    assert_eq!(kind_of(validate_meeting_date("Mon 08/25")), ErrorKind::WeekdayMismatch);
    assert_eq!(
        kind_of(validate_meeting_date("Tue \u{0660}\u{0668}/\u{0662}\u{0665}")),
        ErrorKind::InvalidNumber
    );
    assert_eq!(kind_of(validate_meeting_date("\u{017f}un 08/30")), ErrorKind::UnsupportedWeekday);
    assert!(validate_meeting_date("sunday 08/30").is_ok());
}

#[test]
fn weekday_names_are_read_by_three_letters() {
    let thursday = Date { year: 2026, month: 8, day: 27 };
    assert!(validate_weekday("THURSDAY", thursday).is_ok());
    assert!(validate_weekday("thu", thursday).is_ok());
    assert_eq!(kind_of(validate_weekday("Fri", thursday)), ErrorKind::WeekdayMismatch);
    assert_eq!(kind_of(validate_weekday("th", thursday)), ErrorKind::UnsupportedWeekday);
    let error = validate_weekday("xyz", thursday).unwrap_err();
    assert_eq!(error.kind, ErrorKind::UnsupportedWeekday);
    assert_eq!(error.subject, "xyz");
}

#[test]
fn references_that_lead_off_the_web_are_refused() {
    let broken = page("Tue 08/25", "", r#"<a href="http://[">x</a> hw01"#);
    let error = extract_candidates(&broken).unwrap_err();
    assert_eq!(error.kind, ErrorKind::InvalidSourceUrl);
    assert_eq!(error.subject, "http://[");
    let mail = page("Tue 08/25", "", r#"<a href="mailto:a@b.example">x</a> hw01"#);
    let error = extract_candidates(&mail).unwrap_err();
    assert_eq!(error.kind, ErrorKind::UnsupportedSourceUrl);
    assert_eq!(error.subject, "mailto:a@b.example");
}

#[test]
fn schedules_without_items_or_with_repeated_sources_are_refused() {
    assert_eq!(kind_of(extract_candidates(&page("Tue 08/25", "Talk", ""))), ErrorKind::NoCandidates);
    let twice = page("Tue 08/25", "", "hw01 Due Thu 8/27<br>hw01 again");
    let error = extract_candidates(&twice).unwrap_err();
    assert_eq!(error.kind, ErrorKind::DuplicateSource);
    assert_eq!(error.subject, "hw01 again");
}

#[test]
fn replies_that_do_not_fit_the_item_are_refused() {
    let text = "Homework Due Thu 8/27";
    let good = || reply("Due Thu 8/27", "2026-08-27");
    assert_eq!(
        refusal("Homework Due Thu 8/27 or Mon 8/31", good()),
        ErrorKind::MultipleDates
    );
    let changed = ModelOutput { classification: CandidateKind::InClass, ..good() };
    assert_eq!(refusal(text, changed), ErrorKind::ClassificationChanged);
    let unknown = ModelOutput { link_ids: vec!["link_0".into()], ..good() };
    assert_eq!(refusal(text, unknown), ErrorKind::BadLinkIds);
    let twice = ModelOutput { link_ids: vec!["link_0".into(), "link_0".into()], ..good() };
    assert_eq!(
        refusal(r#"<a href="/hw">x</a> Homework Due Thu 8/27"#, twice),
        ErrorKind::BadLinkIds
    );
    let ambiguous = ModelOutput { status: ModelStatus::Ambiguous, ..good() };
    assert_eq!(refusal(text, ambiguous), ErrorKind::AmbiguousDeadline);
    let talkative = ModelOutput { due_time: Some("23:59".into()), ..silence() };
    assert_eq!(refusal("Finish d04", talkative), ErrorKind::UnexpectedDeadlineFields);
    assert_eq!(refusal(text, silence()), ErrorKind::SuppressedDeadline);
    let elsewhere = ModelOutput { status: ModelStatus::NotAssignment, ..silence() };
    assert_eq!(refusal(text, elsewhere), ErrorKind::SuppressedDeadline);
    assert!(validate_model(&item("Read notes from 8/27"), silence()).unwrap().is_none());
}

#[test]
fn titles_and_bodies_have_their_limits() {
    let text = "Homework Due Thu 8/27";
    let with = |title: String, body: String| ModelOutput {
        title,
        body,
        ..reply("Due Thu 8/27", "2026-08-27")
    };
    let kind = |title: &str, body: &str| refusal(text, with(title.into(), body.into()));
    assert_eq!(kind(" \t", "b"), ErrorKind::EmptyPresentation);
    assert_eq!(kind("t", "\n"), ErrorKind::EmptyPresentation);
    assert_eq!(kind(&"t".repeat(121), "b"), ErrorKind::PresentationTooLong);
    assert_eq!(kind("t", &"é".repeat(2001)), ErrorKind::PresentationTooLong);
    assert_eq!(kind("see www.example.org", "b"), ErrorKind::AddressInPresentation);
    assert_eq!(kind("t", "HTTP://example.org"), ErrorKind::AddressInPresentation);
    let event = validate_model(&item(text), with("t".repeat(120), " é".repeat(1000)))
        .unwrap()
        .unwrap();
    assert_eq!(event.title.len(), 120);
    assert_eq!(event.body.chars().count(), 1999);
}

#[test]
fn evidence_has_to_stand_in_the_deadline_clause() {
    let text = "Homework 8/27 Due Thu 8/27";
    let part = |evidence: Option<&str>, date: Option<&str>| ModelOutput {
        due_evidence: evidence.map(str::to_owned),
        due_date: date.map(str::to_owned),
        ..reply("", "")
    };
    assert_eq!(refusal(text, part(None, Some("2026-08-27"))), ErrorKind::IncompleteDeadline);
    assert_eq!(refusal(text, part(Some("8/27"), None)), ErrorKind::IncompleteDeadline);
    assert_eq!(refusal(text, reply(" ", "2026-08-27")), ErrorKind::EvidenceNotInSource);
    assert_eq!(refusal(text, reply("due Thu", "2026-08-27")), ErrorKind::EvidenceNotInSource);
    assert_eq!(
        refusal("Read notes from 8/27", reply("8/27", "2026-08-27")),
        ErrorKind::NoDeadlineClause
    );
    assert_eq!(
        refusal(text, reply("Homework 8/27", "2026-08-27")),
        ErrorKind::EvidenceOutsideClause
    );
}

#[test]
fn dates_have_to_agree() {
    let text = "Homework Due Thu 8/27";
    let error = validate_model(&item(text), reply("Due Thu 8/27", "soon")).unwrap_err();
    assert_eq!(error.kind, ErrorKind::InvalidDueDate);
    assert_eq!(error.subject, "soon");
    let error = validate_model(&item(text), reply("Due Thu 8/27", "2026-7-31")).unwrap_err();
    assert_eq!(error.kind, ErrorKind::OutsideTerm);
    assert_eq!(error.subject, "2026-07-31");
    assert_eq!(refusal(text, reply("Due Thu 8/27", "2027-01-01")), ErrorKind::OutsideTerm);
    assert_eq!(refusal(text, reply("Due Thu", "2026-08-27")), ErrorKind::NoNumericDate);
    assert_eq!(
        refusal("Homework Due Tue 9/31", reply("Due Tue 9/31", "2026-09-30")),
        ErrorKind::InvalidEvidenceDate
    );
    assert_eq!(refusal(text, reply("Due Thu 8/27", "2026-08-28")), ErrorKind::DateMismatch);
    assert_eq!(
        refusal("Homework Due Thu 8/27/25", reply("Due Thu 8/27/25", "2026-08-27")),
        ErrorKind::DateMismatch
    );
    assert_eq!(
        refusal("Homework Due Mon 8/27", reply("Due Mon 8/27", "2026-08-27")),
        ErrorKind::WeekdayMismatch
    );
    assert!(validate_model(
        &item("Homework Due Thu 8/27/2026"),
        reply("Due Thu 8/27/2026", "2026-08-27")
    )
    .is_ok());
}

#[test]
fn the_weekday_of_the_clause_has_to_agree() {
    let kind = |text: &str, evidence: &str| {
        validate_model(&item(text), reply(evidence, "2026-08-27")).map(|event| event.is_some())
            .map_err(|error| error.kind)
    };
    assert_eq!(kind("Homework Due Mon 8/27", "8/27"), Err(ErrorKind::WeekdayMismatch));
    assert_eq!(kind("Homework Due 8/27 (Friday)", "8/27"), Err(ErrorKind::WeekdayMismatch));
    assert_eq!(kind("Homework Due Thu 8/27", "8/27"), Ok(true));
    assert_eq!(kind("Homework Due 8/27", "8/27"), Ok(true));
    assert_eq!(kind("Monday notes Due Thu 8/27", "8/27"), Ok(true));
    assert_eq!(kind("Homework Due Thu 8/27, not Monday", "Thu 8/27"), Ok(true));
}

#[test]
fn a_part_of_the_date_is_no_date() {
    let refused = |text: &str, evidence: &str, date: &str| refusal(text, reply(evidence, date));
    assert_eq!(refused("Essay Due 12/15", "Due 12/1", "2026-12-01"), ErrorKind::DateMismatch);
    assert_eq!(refused("Essay Due 8/27/27", "Due 8/27", "2026-08-27"), ErrorKind::DateMismatch);
    assert_eq!(refused("Essay Due 12/155", "12/15", "2026-12-15"), ErrorKind::NoNumericDate);
    assert!(validate_model(&item("Essay Due 12/15"), reply("12/15", "2026-12-15")).is_ok());
    assert!(validate_model(&item("Essay Due 12/15/26"), reply("12/15/26", "2026-12-15")).is_ok());
    assert!(validate_model(&item("Essay Due 12/15/26"), reply("12/15", "2026-12-15")).is_ok());
}

#[test]
fn a_time_before_a_comma_is_no_whole_day() {
    let text = "Homework Due Thu 8/27 at 5 pm, on Canvas";
    let evidence = "Due Thu 8/27 at 5 pm, on Canvas";
    assert_eq!(refusal(text, reply(evidence, "2026-08-27")), ErrorKind::DueTimeMissing);
    assert_eq!(refusal(text, reply("Due Thu 8/27", "2026-08-27")), ErrorKind::SourceTimeOmitted);
    let mut timed = reply(evidence, "2026-08-27");
    timed.due_time = Some("17:00".into());
    let event = validate_model(&item(text), timed).unwrap().unwrap();
    assert!(matches!(event.deadline, Deadline::Timed { local } if local.time.hour == 17));
}

#[test]
fn times_have_to_agree() {
    let timed = |evidence: &str, time: Option<&str>| ModelOutput {
        due_time: time.map(str::to_owned),
        ..reply(evidence, "2026-08-27")
    };
    let late = "Homework Due Thu 8/27 at 5:30 pm";
    let clause = "Due Thu 8/27 at 5:30 pm";
    assert_eq!(
        refusal("Homework Due Thu 8/27 13 pm", timed("Due Thu 8/27 13 pm", Some("13:00"))),
        ErrorKind::InvalidSourceTime
    );
    assert_eq!(
        refusal("Homework Due Thu 8/27 1 pm 2 pm", timed("Due Thu 8/27", None)),
        ErrorKind::MultipleTimes
    );
    assert_eq!(refusal(late, timed("Due Thu 8/27", None)), ErrorKind::SourceTimeOmitted);
    assert_eq!(refusal(late, timed(clause, None)), ErrorKind::DueTimeMissing);
    let error = validate_model(&item(late), timed(clause, Some("late"))).unwrap_err();
    assert_eq!(error.kind, ErrorKind::InvalidDueTime);
    assert_eq!(error.subject, "late");
    assert_eq!(refusal(late, timed(clause, Some("17:31"))), ErrorKind::TimeMismatch);
    assert!(validate_model(&item(late), timed(clause, Some("17:30"))).is_ok());
    assert_eq!(
        refusal("Homework Due Thu 8/27", timed("Due Thu 8/27", Some("23:59"))),
        ErrorKind::InventedTime
    );
    assert_eq!(
        refusal("Lab due End of Class 8/27", timed("due End of Class 8/27", None)),
        ErrorKind::EndOfClassExpected
    );
    assert_eq!(
        refusal("Lab due end of class 8/27", timed("due end of class 8/27", Some("13:45"))),
        ErrorKind::EndOfClassExpected
    );
}

#[test]
fn the_repeated_hour_is_no_deadline() {
    let text = "Homework Due Sun 11/1 1:30 am";
    let output = ModelOutput {
        due_time: Some("01:30".into()),
        ..reply("Due Sun 11/1 1:30 am", "2026-11-01")
    };
    assert_eq!(refusal(text, output), ErrorKind::NotUniqueLocalTime);
    let text = "Homework Due Sun 11/1 12:30 a.m.";
    let output = ModelOutput {
        due_time: Some("00:30".into()),
        ..reply("Due Sun 11/1 12:30 a.m.", "2026-11-01")
    };
    assert!(validate_model(&item(text), output).is_ok());
}

#[test]
fn states_that_break_the_rules_are_refused() {
    let check = |state: &State| kind_of(validate_state(state));
    let mut foreign = state_of(vec![]);
    foreign.version = 2;
    assert_eq!(check(&foreign), ErrorKind::ForeignState);
    let mut foreign = state_of(vec![]);
    foreign.schedule_url = "https://elsewhere.example/".into();
    assert_eq!(check(&foreign), ErrorKind::ForeignState);
    assert_eq!(check(&state_of(vec![record("a"), record("a")])), ErrorKind::DuplicateIdentities);
    let mut other = record("b");
    other.uid = uid_for("a");
    assert_eq!(check(&state_of(vec![record("a"), other.clone()])), ErrorKind::DuplicateIdentities);
    assert_eq!(check(&state_of(vec![other])), ErrorKind::InvalidUid);
    let mut bare = record("a");
    bare.event = None;
    assert_eq!(check(&state_of(vec![bare])), ErrorKind::ActiveWithoutEvent);
    let link = |url: &str| {
        let mut linked = record("a");
        linked.links = vec![SourceLink { id: "link_0".into(), text: "x".into(), url: url.into() }];
        state_of(vec![linked])
    };
    assert_eq!(check(&link("no address")), ErrorKind::InvalidStateUrl);
    assert_eq!(check(&link("ftp://example.org/")), ErrorKind::UnsupportedStateUrl);
    assert!(validate_state(&link("HTTPS://example.org/")).is_ok());
}

#[test]
fn reconciliations_that_would_do_harm_are_refused() {
    let now = noon(9, 1);
    let due = item("hw01 Due Thu 8/27");
    let event = || reply("Due Thu 8/27", "2026-08-27");
    assert_eq!(
        kind_of(reconcile(state_of(vec![]), vec![], &Never, now)),
        ErrorKind::EmptyCandidates
    );
    let mut foreign = state_of(vec![]);
    foreign.version = 7;
    assert_eq!(
        kind_of(reconcile(foreign, vec![due.clone()], &Never, now)),
        ErrorKind::ForeignState
    );
    let twice = vec![due.clone(), due.clone()];
    let replies = vec![Some(Ok(event())), None];
    assert_eq!(
        kind_of(reconcile_replies(state_of(vec![]), twice, replies, now)),
        ErrorKind::DuplicateCandidate
    );
    let error = reconcile(state_of(vec![]), vec![due.clone()], &Never, now).unwrap_err();
    assert_eq!(error.kind, ErrorKind::ClassifierFailed);
    assert_eq!(error.subject, "nobody is here");
    assert_eq!(error.context, "hw01 Due Thu 8/27");

    let mut known = record(&due.source_key);
    known.sequence = u32::MAX;
    assert_eq!(
        kind_of(reconcile_replies(
            state_of(vec![known]),
            vec![due.clone()],
            vec![Some(Ok(event()))],
            now
        )),
        ErrorKind::SequenceOverflow
    );
    let later = item("hw01 Due date unknown");
    let error = reconcile_replies(
        state_of(vec![record(&later.source_key)]),
        vec![later],
        vec![Some(Ok(silence()))],
        now,
    )
    .unwrap_err();
    assert_eq!(error.kind, ErrorKind::EventLost);
    assert_eq!(error.subject, "hw01 Due date unknown");
    assert_eq!(
        kind_of(reconcile_replies(
            state_of(vec![record("a"), record("b"), record("c")]),
            vec![due],
            vec![Some(Ok(event()))],
            now
        )),
        ErrorKind::TooManyRemovals
    );
}

#[test]
fn retired_records_need_a_next_revision() {
    let due = item("hw01 Due Thu 8/27");
    let mut gone = record("a");
    gone.sequence = u32::MAX;
    let mut kept = record(&due.source_key);
    kept.fingerprint = due.fingerprint.clone();
    assert_eq!(
        kind_of(reconcile_replies(
            state_of(vec![gone, kept]),
            vec![due],
            vec![None],
            noon(9, 1)
        )),
        ErrorKind::SequenceOverflow
    );
}

#[test]
fn calendars_of_impossible_deadlines_are_refused() {
    let at = |deadline: Deadline| {
        let mut dated = record("a");
        dated.event.as_mut().unwrap().deadline = deadline;
        let state = state_of(vec![dated]);
        assert!(can_write(&state));
        kind_of(calendar(&state))
    };
    let last = Date { year: 262142, month: 12, day: 31 };
    assert_eq!(at(Deadline::AllDay { date: last }), ErrorKind::DeadlineOverflow);
    let repeated = DateTime {
        date: Date { year: 2026, month: 11, day: 1 },
        time: Time { hour: 1, minute: 30, second: 0, nanosecond: 0 },
    };
    assert_eq!(at(Deadline::Timed { local: repeated }), ErrorKind::NotUniqueLocalTime);
    let mut foreign = state_of(vec![]);
    foreign.version = 0;
    assert_eq!(kind_of(calendar(&foreign)), ErrorKind::ForeignState);
}

#[test]
fn calendar_texts_are_checked() {
    let good = "BEGIN:VCALENDAR\r\nEND:VCALENDAR\r\n";
    assert!(check_calendar_text(good, &None).is_ok());
    let error = check_calendar_text(good, &Some("bad line".into())).unwrap_err();
    assert_eq!(error.kind, ErrorKind::CalendarUnreadable);
    assert_eq!(error.subject, "bad line");
    let lines = |text: &str| check_calendar_text(text, &None).map_err(|error| error.kind);
    assert_eq!(lines("BEGIN:VCALENDAR"), Err(ErrorKind::BadContentLines));
    assert_eq!(lines(""), Err(ErrorKind::BadContentLines));
    assert_eq!(lines(&format!("{}\r\n", "x".repeat(75))), Ok(()));
    assert_eq!(lines(&format!("{}\r\n", "x".repeat(76))), Err(ErrorKind::BadContentLines));
    assert_eq!(lines(&format!("a\r\n{}é\r\nb\r\n", "x".repeat(74))), Err(ErrorKind::BadContentLines));
    assert_eq!(lines(&format!("a\r\n{}é\r\nb\r\n", "x".repeat(73))), Ok(()));
}

#[test]
fn answers_without_structured_text_are_refused() {
    let kind = |body: &str| structured_text(body.as_bytes()).map_err(|error| error.kind);
    assert_eq!(kind("no json"), Err(ErrorKind::NotJson));
    assert_eq!(kind("{}"), Err(ErrorKind::NoStructuredContent));
    assert_eq!(
        kind(r#"{"candidates":[{"content":{"parts":[{"thought":true},{"text":5}]}}]}"#),
        Err(ErrorKind::NoStructuredText)
    );
    assert_eq!(
        kind(r#"{"candidates":[{"content":{"parts":[{"thought":true},{"text":"a\nb"},{"text":"c"}]}}]}"#),
        Ok("a\nb".to_string())
    );
}

#[test]
fn overrides_have_to_hold_something() {
    let kind = |body: &str| parse_overrides(body.as_bytes()).map(|_| ()).map_err(|error| error.kind);
    assert_eq!(kind("[]"), Err(ErrorKind::NotJson));
    assert_eq!(kind(r#"{"a":1}"#), Err(ErrorKind::NotJson));
    assert_eq!(kind(r#"{"a":" "}"#), Err(ErrorKind::EmptyOverride));
    assert_eq!(kind(r#"{"\t":"b"}"#), Err(ErrorKind::EmptyOverride));
    assert_eq!(kind(r#"{"a":"b"}"#), Ok(()));
    let overrides: Overrides = parse_overrides(br#"{"Write it":"paper","x":"y"}"#).unwrap();
    assert_eq!(overrides.get("Write it"), Some("paper".to_string()));
    assert_eq!(overrides.get("write it"), None);
    assert!(extract_candidates_with_overrides(&page("Tue 08/25", "", "Write it"), &overrides).is_ok());
}

#[test]
fn answers_are_held_to_origin_status_and_size() {
    let host = Some("data385.netlify.app".to_string());
    assert!(check_schedule_answer("https", &host, 200).is_ok());
    assert_eq!(kind_of(check_schedule_answer("http", &host, 200)), ErrorKind::UntrustedOrigin);
    assert_eq!(kind_of(check_schedule_answer("https", &None, 200)), ErrorKind::UntrustedOrigin);
    let error = check_schedule_answer("https", &host, 301).unwrap_err();
    assert_eq!(error.kind, ErrorKind::UnexpectedStatus);
    assert_eq!(error.subject, "301");
    assert_eq!(kind_of(after_state_answer(500)), ErrorKind::UnexpectedStatus);
    assert_eq!(kind_of(after_calendar_answer(200)), ErrorKind::UnsafeBootstrap);
    assert!(after_calendar_answer(404).is_ok());
    assert_eq!(kind_of(check_key(" \n")), ErrorKind::EmptyApiKey);
    assert!(check_key(" k ").is_ok());
    assert!(check_declared(None, 10, "body").is_ok());
    assert!(check_declared(Some(10), 10, "body").is_ok());
    let error = check_declared(Some(11), 10, "body").unwrap_err();
    assert_eq!(error.kind, ErrorKind::TooLarge);
    assert_eq!(error.subject, "body");
    assert!(check_received(10, 10, "body").is_ok());
    assert_eq!(kind_of(check_received(11, 10, "body")), ErrorKind::TooLarge);
}
