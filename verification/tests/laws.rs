use std::cell::Cell;

use chronatello::calendar::calendar;
use chronatello::clock::{Date, DateTime, Time};
use chronatello::digest::uid_for;
use chronatello::extract::{extract_candidates, extract_candidates_with_overrides};
use chronatello::gemini::write_question;
use chronatello::identity::source_key;
use chronatello::model::{
    Candidate, CandidateKind, Classifier, Deadline, ModelOutput, ModelStatus, SourceLink, State,
    SCHEDULE_URL,
};
use chronatello::order::sort_texts;
use chronatello::overrides::Overrides;
use chronatello::publication::Report::{self, Done, Failed, Missing, There};
use chronatello::publication::{advance, start, Failure, Phase, PublicFile};
use chronatello::publish::{
    after_calendar_answer, after_state_answer, published_calendar, StateStep,
};
use chronatello::reconcile::{must_ask, reconcile, reconcile_replies, take_in, Progress, Reply};
use chronatello::state::validate_state;
use chronatello::text::normalize;
use chronatello::validate::validate_model;

fn page(rows: &[(&str, &str)]) -> String {
    let rows: Vec<String> = rows
        .iter()
        .map(|(date, text)| {
            format!("<tr><td headers=\"date\">{date}</td><td headers=\"assignments\">{text}</td></tr>")
        })
        .collect();
    format!(
        "<table><thead><tr><th>Week</th><th>Date</th><th>Topic</th><th>Prepare</th><th>Materials</th><th>In Class</th><th>Assignments</th></tr></thead><tbody>{}</tbody></table>",
        rows.join("")
    )
}

fn items(texts: &[&str]) -> Vec<Candidate> {
    let rows: Vec<(&str, &str)> = texts.iter().map(|text| ("Tue 08/25", *text)).collect();
    extract_candidates(&page(&rows)).unwrap()
}

fn event(evidence: &str, date: &str, title: &str) -> Reply {
    Some(Ok(ModelOutput {
        status: ModelStatus::Event,
        title: title.into(),
        body: "Do it.".into(),
        classification: CandidateKind::Assignment,
        due_evidence: Some(evidence.into()),
        due_date: Some(date.into()),
        due_time: None,
        link_ids: vec![],
    }))
}

fn silence() -> Reply {
    Some(Ok(ModelOutput {
        status: ModelStatus::NotAssignment,
        title: String::new(),
        body: String::new(),
        classification: CandidateKind::Assignment,
        due_evidence: None,
        due_date: None,
        due_time: None,
        link_ids: vec![],
    }))
}

fn at(day: u32) -> DateTime {
    DateTime {
        date: Date { year: 2026, month: 8, day },
        time: Time { hour: 6, minute: 30, second: 15, nanosecond: 0 },
    }
}

const TEXTS: [&str; 3] = ["hw01 Due Thu 8/27", "hw02 Due Mon 8/31", "Finish d04"];

fn three() -> State {
    reconcile_replies(
        State::empty(at(1)),
        items(&TEXTS),
        vec![event("Due Thu 8/27", "2026-08-27", "One"), event("Due Mon 8/31", "2026-08-31", "Two"), silence()],
        at(2),
    )
    .unwrap()
}

struct Counting {
    asked: Cell<usize>,
    reply: Reply,
}

impl Classifier for Counting {
    fn classify(&self, _: &Candidate) -> Result<ModelOutput, String> {
        self.asked.set(self.asked.get() + 1);
        self.reply.clone().unwrap()
    }
}

#[test]
fn results_keep_the_rules() {
    let state = three();
    assert!(validate_state(&state).is_ok());
    assert_eq!(state.version, 1);
    assert_eq!(state.schedule_url, SCHEDULE_URL);
    assert_eq!(state.generated_at, at(2));
    for record in &state.records {
        assert_eq!(record.uid, uid_for(&record.source_key));
        assert_eq!(record.active, record.event.is_some());
    }
}

#[test]
fn results_have_a_calendar() {
    let state = three();
    let text = published_calendar(&state).unwrap();
    for record in &state.records {
        let unfolded = text.replace("\r\n ", "");
        assert_eq!(unfolded.contains(&record.uid), record.active);
    }
}

#[test]
fn active_records_alone_decide_the_calendar() {
    let state = three();
    let text = calendar(&state).unwrap();
    let mut other = state.clone();
    other.records.reverse();
    other.generated_at = at(9);
    other.records.retain(|record| record.active);
    assert_eq!(other.records.len(), 2);
    assert_eq!(calendar(&other).unwrap(), text);
    other.records.pop();
    assert_ne!(calendar(&other).unwrap(), text);
}

#[test]
fn questions_show_the_item_alone() {
    let item = items(&["hw01 Due Thu 8/27"]).remove(0);
    let mut other = item.clone();
    other.source_key = "another".into();
    other.fingerprint = "another".into();
    assert_eq!(write_question(&item), write_question(&other));
    other.row_date = "Wed 08/26".into();
    assert_ne!(write_question(&item), write_question(&other));
}

#[test]
fn new_deadlines_make_no_new_source() {
    let key = |text: &str| source_key(text, &vec![], &None);
    let essay = key("Submit the final  analysis Due Mon 8/31");
    assert_eq!(essay, key("Submit the final analysis"));
    assert_eq!(essay, key("Submit the final analysis by Tue 9/1, by 5 pm"));
    assert_eq!(essay, key("Submit the final analysis DUE sometime"));
    assert_ne!(essay, key("Submit the analysis Due Mon 8/31"));
    assert_ne!(essay, key("Submit the final analysis Due\nMon 8/31"));
    let ruby = key("Read the ruby guide bydue Due 8/31");
    assert_eq!(ruby, key("Read the ruby guide bydue by 9/1"));
}

#[test]
fn words_stay_in_order() {
    let words = ["one", "t\u{e9}n", "three"];
    let text = format!("\t{}\u{a0} {}\r\n{} ", words[0], words[1], words[2]);
    assert_eq!(normalize(&text), words.join(" "));
}

#[test]
fn a_state_without_records_is_accepted() {
    assert!(validate_state(&State::empty(at(1))).is_ok());
}

#[test]
fn missing_items_are_retired_and_returning_ones_reactivated() {
    let before = three();
    let less = reconcile_replies(before.clone(), items(&TEXTS[1..]), vec![None, None], at(3)).unwrap();
    let mut expected = before.records[0].clone();
    expected.active = false;
    expected.sequence = 1;
    expected.updated_at = at(3);
    assert_eq!(less.records[0], expected);
    let back = reconcile_replies(less, items(&TEXTS), vec![None, None, None], at(4)).unwrap();
    expected.active = true;
    expected.sequence = 2;
    expected.updated_at = at(4);
    assert_eq!(back.records[0], expected);
}

#[test]
fn records_keep_place_identity_and_revision() {
    let before = three();
    let changed = items(&["hw02 Due Wed 9/2", "hw01 Due Thu 8/27", "hw09"]);
    let replies = vec![event("Due Wed 9/2", "2026-09-02", "Two"), None, silence()];
    let after = reconcile_replies(before.clone(), changed, replies, at(3)).unwrap();
    assert_eq!(after.records.len(), 4);
    for (old, new) in before.records.iter().zip(&after.records) {
        assert_eq!(old.source_key, new.source_key);
        assert_eq!(old.uid, new.uid);
    }
    assert_eq!(after.records[0], before.records[0]);
    assert_eq!(after.records[1].sequence, 1);
    assert_eq!(after.records[1].updated_at, at(3));
    assert_eq!(after.records[1].source_text, "hw02 Due Wed 9/2");
    assert_eq!(after.records[2], before.records[2]);
    assert_eq!(after.records[3].sequence, 0);
    assert_eq!(after.records[3].source_text, "hw09");
    assert!(after.records[3].event.is_none());
    assert_eq!(after.generated_at, at(3));
}

#[test]
fn a_second_pass_changes_nothing() {
    let state = three();
    let again = reconcile_replies(state.clone(), items(&TEXTS), vec![None, None, None], at(9)).unwrap();
    assert_eq!(again, state);
    let retired =
        reconcile_replies(state, items(&["hw02 Due Mon 8/31"]), vec![None], at(9)).unwrap();
    assert!(!retired.records[0].active);
    let again =
        reconcile_replies(retired.clone(), items(&["hw02 Due Mon 8/31"]), vec![None], at(10)).unwrap();
    assert_eq!(again, retired);
}

#[test]
fn replies_decide_events_alone() {
    let run = |title: &str| {
        reconcile_replies(
            State::empty(at(1)),
            items(&TEXTS),
            vec![
                event("Due Thu 8/27", "2026-08-27", title),
                event("Due Mon 8/31", "2026-08-31", title),
                silence(),
            ],
            at(2),
        )
        .unwrap()
    };
    let (mut left, mut right) = (run("Left"), run("Right"));
    assert_ne!(left, right);
    for state in [&mut left, &mut right] {
        for record in &mut state.records {
            record.event = None;
            record.active = false;
        }
    }
    assert_eq!(left, right);
}

#[test]
fn only_new_and_changed_items_are_asked_about() {
    let state = three();
    let nobody = Counting { asked: Cell::new(0), reply: silence() };
    let again = reconcile(state.clone(), items(&TEXTS), &nobody, at(3)).unwrap();
    assert_eq!(nobody.asked.get(), 0);
    assert_eq!(again, state);
    let one = Counting { asked: Cell::new(0), reply: silence() };
    let more = ["hw01 Due Thu 8/27", "hw02 Due Mon 8/31", "Finish d04", "Finish d05"];
    assert_eq!(reconcile(state, items(&more), &one, at(3)).unwrap().records.len(), 4);
    assert_eq!(one.asked.get(), 1);
}

#[test]
fn a_bad_reply_stops_everything() {
    let counting = Counting { asked: Cell::new(0), reply: Some(Err("down".into())) };
    assert!(reconcile(State::empty(at(1)), items(&TEXTS), &counting, at(2)).is_err());
    assert_eq!(counting.asked.get(), 1);
    let wrong = vec![event("Due Thu 8/27", "2026-08-28", "One"), silence(), silence()];
    assert!(reconcile_replies(State::empty(at(1)), items(&TEXTS), wrong, at(2)).is_err());
}

#[test]
fn half_of_the_active_events_may_go_but_no_more() {
    let state = three();
    assert!(reconcile_replies(state.clone(), items(&["hw01 Due Thu 8/27"]), vec![None], at(3)).is_ok());
    assert!(reconcile_replies(state, items(&["Finish d04"]), vec![None], at(3)).is_err());
}

#[test]
fn a_small_removal_is_made() {
    let state = three();
    let next = reconcile_replies(state.clone(), items(&TEXTS[1..]), vec![None, None], at(3)).unwrap();
    assert_eq!(next.records.iter().filter(|record| record.active).count(), 1);
    assert!(reconcile_replies(state, items(&TEXTS[2..]), vec![None], at(3)).is_err());
}

#[test]
fn identities_by_hand_change_sources_alone() {
    let html = page(&[("Tue 08/25", "Essay Due Thu 8/27"), ("Thu 08/27", "Essay two Due Mon 8/31")]);
    let plain = extract_candidates(&html).unwrap();
    let mut overrides = Overrides::new();
    overrides.insert("Essay two Due Mon 8/31".into(), "second".into());
    overrides.insert("Essay".into(), "first".into());
    let given = extract_candidates_with_overrides(&html, &overrides).unwrap();
    assert_eq!(given[0], plain[0]);
    assert_ne!(given[1].source_key, plain[1].source_key);
    let mut renamed = given[1].clone();
    renamed.source_key = plain[1].source_key.clone();
    assert_eq!(renamed, plain[1]);
}

#[test]
fn items_are_taken_in_one_by_one() {
    let state = three();
    let item = items(&["hw03 Due Mon 8/31"]).remove(0);
    let progress = Progress { records: state.records, changed: false, seen: vec![] };
    assert!(must_ask(&progress, &item));
    let reply = event("Due Mon 8/31", "2026-08-31", "Three");
    let next = take_in(progress, item.clone(), reply, at(4)).unwrap();
    assert!(next.changed);
    assert_eq!(next.seen, [item.source_key.clone()]);
    assert_eq!(next.records.len(), 4);
    assert!(!must_ask(&next, &item));
    assert!(take_in(next, item, None, at(4)).is_err());
}

#[test]
fn accepted_events_lie_in_the_term_and_keep_links_of_the_item() {
    let item = items(&[r#"<a href="/hw/1">one</a> <a href="/hw/2">two</a> Due Thu 8/27"#]).remove(0);
    let mut output = event("Due Thu 8/27", "2026-08-27", "  One \n two ").unwrap().unwrap();
    output.link_ids = vec!["link_1".into(), "link_0".into()];
    let stored = validate_model(&item, output).unwrap().unwrap();
    assert_eq!(stored.title, "One two");
    assert_eq!(stored.deadline, Deadline::AllDay { date: Date { year: 2026, month: 8, day: 27 } });
    assert_eq!(stored.classification, item.kind);
    assert_eq!(stored.link_ids, ["link_1", "link_0"]);
}

#[test]
fn the_end_of_class_is_a_quarter_to_two() {
    for (text, date, month, day) in [
        ("Lab due end of class 8/27", "2026-08-27", 8, 27),
        ("Lab due end of class 11/1", "2026-11-01", 11, 1),
    ] {
        let item = items(&[text]).remove(0);
        let mut output = event(&text[4..], date, "Lab").unwrap().unwrap();
        output.due_time = Some("end_of_class".into());
        let local = DateTime {
            date: Date { year: 2026, month, day },
            time: Time { hour: 13, minute: 45, second: 0, nanosecond: 0 },
        };
        let stored = validate_model(&item, output).unwrap().unwrap();
        assert_eq!(stored.deadline, Deadline::Timed { local });
    }
}

#[test]
fn the_source_decides_the_day() {
    let item = items(&["Essay Due Tue 12/15 at 5 pm"]).remove(0);
    let reply = |evidence: &str, date: &str| {
        let mut output = event(evidence, date, "Essay").unwrap().unwrap();
        output.due_time = Some("17:00".into());
        validate_model(&item, output).map(|event| event.unwrap().deadline)
    };
    let whole = reply("Due Tue 12/15 at 5 pm", "2026-12-15").unwrap();
    assert_eq!(reply("12/15 at 5 pm", "2026-12-15").unwrap(), whole);
    assert!(reply("12/1", "2026-12-01").is_err());
    assert!(reply("Due Tue 12/15 at 5 pm", "2026-12-08").is_err());
}

#[test]
fn explicit_dates_cannot_be_passed_over() {
    let item = items(&["Read by 8/27"]).remove(0);
    assert!(validate_model(&item, silence().unwrap().unwrap()).is_err());
}

#[test]
fn identities_last() {
    let links = |urls: &[&str]| -> Vec<SourceLink> {
        urls.iter()
            .map(|url| SourceLink { id: "x".into(), text: "y".into(), url: url.to_string() })
            .collect()
    };
    assert_eq!(
        source_key("hw01 Due Thu 8/27", &links(&["https://a.example/"]), &None),
        source_key("now HW-1 is by Mon 9/7", &links(&[]), &None)
    );
    assert_eq!(
        source_key("Read", &links(&["https://a.example/", "https://b.example/"]), &None),
        source_key("Look", &links(&["https://b.example/", "https://a.example/"]), &None)
    );
    assert_eq!(
        source_key("Write the report due Thu 8/27", &links(&[]), &None),
        source_key("write  the Report by Mon 9/7", &links(&[]), &None)
    );
    assert_ne!(
        source_key("Write the report due Thu 8/27", &links(&[]), &None),
        source_key("Write the summary due Thu 8/27", &links(&[]), &None)
    );
    let key = source_key("anything", &links(&[]), &None);
    assert_eq!(key.len(), 64);
    let copied = Some(format!("source_key:{key}"));
    assert_eq!(source_key("renamed", &links(&["https://a.example/"]), &copied), key);
    let manual = Some("final".to_string());
    assert_eq!(source_key("a", &links(&[]), &manual), source_key("hw01", &links(&[]), &manual));
}

#[test]
fn normalising_twice_is_normalising_once() {
    for text in ["", "  ", "a", " a\u{2028}b \t c"] {
        let once = normalize(text);
        assert_eq!(normalize(&once), once);
    }
}

#[test]
fn order_forgets_order() {
    let left = sort_texts(vec!["c".into(), "a".into(), "b".into(), "a".into()]);
    let right = sort_texts(vec!["a".into(), "b".into(), "a".into(), "c".into()]);
    assert_eq!(left, right);
}

#[test]
fn extracted_items_have_their_own_sources_and_web_links() {
    let items = items(&["hw01 <a href='x#y'>x</a>", "hw02", "Finish d04"]);
    assert_eq!(items.len(), 3);
    assert_ne!(items[0].source_key, items[1].source_key);
    assert_ne!(items[1].source_key, items[2].source_key);
    assert_eq!(items[0].links[0].id, "link_0");
    assert_eq!(items[0].links[0].url, "https://data385.netlify.app/x");
}

#[test]
fn a_start_from_nothing_needs_both_to_be_missing() {
    assert_eq!(after_state_answer(200).unwrap(), StateStep::ReadState);
    assert_eq!(after_state_answer(299).unwrap(), StateStep::ReadState);
    assert_eq!(after_state_answer(404).unwrap(), StateStep::AskForCalendar);
    assert!(after_state_answer(403).is_err());
    assert!(after_calendar_answer(404).is_ok());
    assert!(after_calendar_answer(500).is_err());
}

fn walk(reports: &[Report]) -> Phase {
    let mut phase = start();
    for report in reports {
        phase = advance(phase, *report);
    }
    phase
}

#[test]
fn a_first_publication_goes_straight() {
    let start = [Missing, Missing, Done, Done, Done, Done, Missing];
    assert_eq!(walk(&start), Phase::Install { replacing: false });
    let mut reports = start.to_vec();
    reports.push(Done);
    assert_eq!(walk(&reports), Phase::Published);
    assert_eq!(walk(&[Missing, Missing, Done]), Phase::Write { file: PublicFile::State });
    reports.pop();
    reports.push(Failed);
    assert_eq!(walk(&reports), Phase::Stopped { failure: Failure::Installing });
}

#[test]
fn a_replacement_is_backed_up_and_restored() {
    let staged = [There, Done, Missing, Done, Done, Done, Done, There];
    assert_eq!(walk(&staged), Phase::BackUp);
    let with = |more: &[Report]| walk(&[&staged[..], more].concat());
    assert_eq!(with(&[Done]), Phase::Install { replacing: true });
    assert_eq!(with(&[Done, Done]), Phase::DropBackup);
    assert_eq!(with(&[Done, Done, Done]), Phase::Published);
    assert_eq!(with(&[Done, Done, Failed]), Phase::Stopped { failure: Failure::DroppingBackup });
    assert_eq!(with(&[Done, Failed]), Phase::Restore);
    assert_eq!(with(&[Done, Failed, Done]), Phase::Stopped { failure: Failure::Installing });
    assert_eq!(with(&[Done, Failed, Failed]), Phase::Stopped { failure: Failure::Restoring });
    assert_eq!(with(&[Failed]), Phase::Stopped { failure: Failure::BackingUp });
    assert_eq!(with(&[Failed, Done]), Phase::Stopped { failure: Failure::BackingUp });
}

#[test]
fn publications_stop_at_the_first_failure() {
    assert_eq!(walk(&[There, Failed]), Phase::Stopped { failure: Failure::ClearingStage });
    assert_eq!(walk(&[Missing, There]), Phase::Stopped { failure: Failure::StaleBackup });
    assert_eq!(walk(&[Missing, Missing, Failed]), Phase::Stopped { failure: Failure::MakingStage });
    assert_eq!(
        walk(&[Missing, Missing, Done, Done, Failed]),
        Phase::Stopped { failure: Failure::Writing { file: PublicFile::Calendar } }
    );
}
