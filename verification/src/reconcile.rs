//! Brings the stored state up to date with the schedule.

use vstd::prelude::*;

use crate::clock::DateTime;
use crate::digest::{uid_for, uid_of};
use crate::model::{
    failure, in_context, plain_failure, result_view, Candidate, CandidateView, Classifier, Error,
    ErrorKind, ErrorView, EventView, ModelOutput, OutputView, Record, RecordView, State, StateView,
    StoredEvent,
};
use crate::state::{state_problem, validate_state};
use crate::text::{opt_view, views};
use crate::validate::{holds_text, model_verdict, validate_model, verdict_view};

verus! {

/// What was heard about a schedule item: nothing where nobody was asked, or a reply or a message.
pub type Reply = Option<Result<ModelOutput, String>>;

/// What was heard about a schedule item, by view.
pub type ReplyView = Option<Result<OutputView, Seq<char>>>;

/// The contents of a reply.
pub open spec fn reply_view(reply: Reply) -> ReplyView {
    match reply {
        None => None,
        Some(Ok(output)) => Some(Ok(output@)),
        Some(Err(message)) => Some(Err(message@)),
    }
}

/// The contents of replies.
pub open spec fn reply_views(replies: Seq<Reply>) -> Seq<ReplyView> {
    replies.map_values(|reply: Reply| reply_view(reply))
}

/// How far a reconciliation has come: the records, whether anything changed, and the sources that
/// the schedule still has.
#[verifier::ext_equal]
pub struct ProgressView {
    pub records: Seq<RecordView>,
    pub changed: bool,
    pub seen: Seq<Seq<char>>,
}

/// How far a reconciliation has come.
pub struct Progress {
    pub records: Vec<Record>,
    pub changed: bool,
    pub seen: Vec<String>,
}

impl View for Progress {
    type V = ProgressView;

    open spec fn view(&self) -> ProgressView {
        ProgressView {
            records: views(self.records@),
            changed: self.changed,
            seen: views(self.seen@),
        }
    }
}

/// Where the record of a source stands in a list.
pub open spec fn position(records: Seq<RecordView>, source_key: Seq<char>) -> Option<int>
    decreases records.len(),
{
    if records.len() == 0 {
        None
    } else {
        match position(records.drop_last(), source_key) {
            Some(at) => Some(at),
            None => if records.last().source_key == source_key {
                Some(records.len() - 1)
            } else {
                None
            },
        }
    }
}

/// The record at the position of a source is a record of it, and no earlier one is.
pub proof fn lemma_position(records: Seq<RecordView>, source_key: Seq<char>)
    ensures
        match position(records, source_key) {
            Some(at) => {
                &&& 0 <= at < records.len()
                &&& records[at].source_key == source_key
                &&& forall|i: int| 0 <= i < at ==> (#[trigger] records[i]).source_key != source_key
            },
            None => forall|i: int|
                0 <= i < records.len() ==> (#[trigger] records[i]).source_key != source_key,
        },
    decreases records.len(),
{
    if records.len() > 0 {
        let before = records.drop_last();
        lemma_position(before, source_key);
        assert(forall|i: int| 0 <= i < before.len() ==> before[i] == #[trigger] records[i]);
    }
}

/// Finds the record of a source.
fn find_record(records: &Vec<Record>, source_key: &String) -> (r: Option<usize>)
    ensures
        match r {
            Some(at) => position(views(records@), source_key@) == Some(at as int),
            None => position(views(records@), source_key@) is None,
        },
{
    let ghost all = views(records@);
    proof {
        lemma_position(all, source_key@);
    }
    let mut i: usize = 0;
    while i < records.len()
        invariant
            all == views(records@),
            i <= records@.len(),
            forall|k: int| 0 <= k < i ==> (#[trigger] all[k]).source_key != source_key@,
        decreases records@.len() - i,
    {
        assert(all[i as int] == records@[i as int]@);
        if records[i].source_key == *source_key {
            proof {
                lemma_position(all, source_key@);
            }
            return Some(i);
        }
        i = i + 1;
    }
    None
}

/// Whether somebody has to be asked about a schedule item: it is new, or it has changed.
pub open spec fn asks(progress: ProgressView, candidate: CandidateView) -> bool {
    &&& !progress.seen.contains(candidate.source_key)
    &&& match position(progress.records, candidate.source_key) {
        Some(at) => progress.records[at].fingerprint != candidate.fingerprint,
        None => true,
    }
}

/// What a reply about a schedule item comes to.
#[verifier::opaque]
pub open spec fn answer(candidate: CandidateView, reply: ReplyView) -> Result<
    Option<EventView>,
    ErrorView,
> {
    match reply {
        Some(Ok(output)) => match model_verdict(candidate, output) {
            Ok(event) => Ok(event),
            Err(error) => Err(in_context(error, candidate.source_text)),
        },
        Some(Err(message)) => Err(
            in_context(failure(ErrorKind::ClassifierFailed, message), candidate.source_text),
        ),
        None => Err(
            in_context(plain_failure(ErrorKind::ClassifierFailed), candidate.source_text),
        ),
    }
}

/// A record with the revision after its own, or a failure where there is none.
pub open spec fn revised(record: RecordView, now: DateTime) -> Result<RecordView, ErrorView> {
    if record.sequence == u32::MAX {
        Err(plain_failure(ErrorKind::SequenceOverflow))
    } else {
        Ok(RecordView { sequence: (record.sequence + 1) as u32, updated_at: now, ..record })
    }
}

/// The record of a new schedule item.
pub open spec fn new_record(
    candidate: CandidateView,
    event: Option<EventView>,
    now: DateTime,
) -> RecordView {
    RecordView {
        source_key: candidate.source_key,
        fingerprint: candidate.fingerprint,
        uid: uid_of(candidate.source_key),
        source_text: candidate.source_text,
        links: candidate.links,
        event,
        active: event is Some,
        sequence: 0,
        updated_at: now,
    }
}

/// What becomes of a record whose schedule item is still there: the record, and whether it was
/// touched. A changed item is asked about again; it may not lose its event. An unchanged one is
/// active where it has an event, and coming back is a revision.
#[verifier::opaque]
pub open spec fn kept_record(
    record: RecordView,
    candidate: CandidateView,
    reply: ReplyView,
    now: DateTime,
) -> Result<(RecordView, bool), ErrorView> {
    if record.fingerprint != candidate.fingerprint {
        match answer(candidate, reply) {
            Err(error) => Err(error),
            Ok(event) => if record.event is Some && event is None {
                Err(failure(ErrorKind::EventLost, candidate.source_text))
            } else {
                match revised(
                    RecordView {
                        fingerprint: candidate.fingerprint,
                        source_text: candidate.source_text,
                        links: candidate.links,
                        event,
                        active: event is Some,
                        ..record
                    },
                    now,
                ) {
                    Err(error) => Err(error),
                    Ok(record) => Ok((record, true)),
                }
            },
        }
    } else if !record.active && record.event is Some {
        match revised(RecordView { active: true, ..record }, now) {
            Err(error) => Err(error),
            Ok(record) => Ok((record, true)),
        }
    } else {
        Ok((RecordView { active: record.event is Some, ..record }, false))
    }
}

/// One schedule item taken in.
#[verifier::opaque]
pub open spec fn taken_in(
    progress: ProgressView,
    candidate: CandidateView,
    reply: ReplyView,
    now: DateTime,
) -> Result<ProgressView, ErrorView> {
    if progress.seen.contains(candidate.source_key) {
        Err(plain_failure(ErrorKind::DuplicateCandidate))
    } else {
        let seen = progress.seen.push(candidate.source_key);
        match position(progress.records, candidate.source_key) {
            Some(at) => match kept_record(progress.records[at], candidate, reply, now) {
                Err(error) => Err(error),
                Ok((record, touched)) => Ok(
                    ProgressView {
                        records: progress.records.update(at, record),
                        changed: progress.changed || touched,
                        seen,
                    },
                ),
            },
            None => match answer(candidate, reply) {
                Err(error) => Err(error),
                Ok(event) => Ok(
                    ProgressView {
                        records: progress.records.push(new_record(candidate, event, now)),
                        changed: true,
                        seen,
                    },
                ),
            },
        }
    }
}

/// How far a reconciliation has come after the first `count` schedule items.
pub open spec fn progress_after(
    records: Seq<RecordView>,
    candidates: Seq<CandidateView>,
    replies: Seq<ReplyView>,
    now: DateTime,
    count: int,
) -> Result<ProgressView, ErrorView>
    decreases count,
{
    if count <= 0 {
        Ok(ProgressView { records, changed: false, seen: seq![] })
    } else {
        match progress_after(records, candidates, replies, now, count - 1) {
            Err(error) => Err(error),
            Ok(progress) => taken_in(progress, candidates[count - 1], replies[count - 1], now),
        }
    }
}

/// How many of the records are active.
pub open spec fn active_count(records: Seq<RecordView>) -> nat
    decreases records.len(),
{
    if records.len() == 0 {
        0
    } else {
        active_count(records.drop_last()) + if records.last().active {
            1nat
        } else {
            0nat
        }
    }
}

/// Whether an active record has lost its schedule item.
pub open spec fn is_gone(record: RecordView, seen: Seq<Seq<char>>) -> bool {
    record.active && !seen.contains(record.source_key)
}

/// How many active records have lost their schedule items.
pub open spec fn gone_count(records: Seq<RecordView>, seen: Seq<Seq<char>>) -> nat
    decreases records.len(),
{
    if records.len() == 0 {
        0
    } else {
        gone_count(records.drop_last(), seen) + if is_gone(records.last(), seen) {
            1nat
        } else {
            0nat
        }
    }
}

/// The records with those that lost their schedule items retired. A retirement is a revision.
pub open spec fn retired(records: Seq<RecordView>, seen: Seq<Seq<char>>, now: DateTime) -> Result<
    Seq<RecordView>,
    ErrorView,
>
    decreases records.len(),
{
    if records.len() == 0 {
        Ok(seq![])
    } else {
        match retired(records.drop_last(), seen, now) {
            Err(error) => Err(error),
            Ok(front) => if is_gone(records.last(), seen) {
                match revised(RecordView { active: false, ..records.last() }, now) {
                    Err(error) => Err(error),
                    Ok(record) => Ok(front.push(record)),
                }
            } else {
                Ok(front.push(records.last()))
            },
        }
    }
}

/// The state that the progress ends in, where `active` events were active before: not where more
/// than half of them would go, and only where the result keeps the rules of a state. The records
/// of `state` do not matter.
#[verifier::opaque]
pub open spec fn concluded(
    state: StateView,
    active: nat,
    progress: ProgressView,
    now: DateTime,
) -> Result<StateView, ErrorView> {
    let gone = gone_count(progress.records, progress.seen);
    if active > 0 && gone * 2 > active {
        Err(plain_failure(ErrorKind::TooManyRemovals))
    } else {
        match retired(progress.records, progress.seen, now) {
            Err(error) => Err(error),
            Ok(records) => {
                let next = StateView {
                    records,
                    generated_at: if progress.changed || gone > 0 {
                        now
                    } else {
                        state.generated_at
                    },
                    ..state
                };
                match state_problem(next) {
                    Some(error) => Err(error),
                    None => Ok(next),
                }
            },
        }
    }
}

/// The state that the schedule items and the replies about them lead to. `replies[i]` matters
/// only where somebody had to be asked about item `i`.
pub open spec fn reconciled(
    state: StateView,
    candidates: Seq<CandidateView>,
    replies: Seq<ReplyView>,
    now: DateTime,
) -> Result<StateView, ErrorView> {
    match state_problem(state) {
        Some(error) => Err(error),
        None => if candidates.len() == 0 {
            Err(plain_failure(ErrorKind::EmptyCandidates))
        } else {
            match progress_after(state.records, candidates, replies, now, candidates.len() as int) {
                Err(error) => Err(error),
                Ok(progress) => concluded(state, active_count(state.records), progress, now),
            }
        },
    }
}

/// Whether somebody is asked about schedule item `at`.
pub open spec fn is_asked(
    state: StateView,
    candidates: Seq<CandidateView>,
    replies: Seq<ReplyView>,
    now: DateTime,
    at: int,
) -> bool {
    &&& state_problem(state) is None
    &&& match progress_after(state.records, candidates, replies, now, at) {
        Ok(progress) => asks(progress, candidates[at]),
        Err(_) => false,
    }
}

/// Reads a reply about a schedule item.
fn read_answer(candidate: &Candidate, reply: Reply) -> (r: Result<Option<StoredEvent>, Error>)
    ensures
        verdict_view(r) == answer(candidate@, reply_view(reply)),
{
    reveal(answer);
    match reply {
        Some(Ok(output)) => match validate_model(candidate, output) {
            Ok(event) => Ok(event),
            Err(error) => Err(error.within(candidate.source_text.as_str())),
        },
        Some(Err(message)) => Err(
            Error::about(ErrorKind::ClassifierFailed, message.as_str()).within(
                candidate.source_text.as_str(),
            ),
        ),
        None => Err(
            Error::plain(ErrorKind::ClassifierFailed).within(candidate.source_text.as_str()),
        ),
    }
}

/// Brings a record up to date whose schedule item is still there, and tells whether it was
/// touched.
fn keep_record(record: Record, candidate: Candidate, reply: Reply, now: DateTime) -> (r: Result<
    (Record, bool),
    Error,
>)
    ensures
        match r {
            Ok((kept, touched)) => kept_record(record@, candidate@, reply_view(reply), now) == Ok::<
                _,
                ErrorView,
            >((kept@, touched)),
            Err(error) => kept_record(record@, candidate@, reply_view(reply), now) == Err::<
                (RecordView, bool),
                _,
            >(error@),
        },
{
    reveal(kept_record);
    let mut kept: Record = record;
    let changed: bool = kept.fingerprint != candidate.fingerprint;
    let was_active: bool = kept.active;
    if changed {
        match read_answer(&candidate, reply) {
            Err(error) => return Err(error),
            Ok(event) => {
                if kept.event.is_some() && event.is_none() {
                    return Err(
                        Error::about(ErrorKind::EventLost, candidate.source_text.as_str()),
                    );
                }
                kept.event = event;
                kept.fingerprint = candidate.fingerprint;
                kept.source_text = candidate.source_text;
                kept.links = candidate.links;
            },
        }
    }
    kept.active = kept.event.is_some();
    if changed || (!was_active && kept.active) {
        if kept.sequence == u32::MAX {
            return Err(Error::plain(ErrorKind::SequenceOverflow));
        }
        kept.sequence = kept.sequence + 1;
        kept.updated_at = now;
        Ok((kept, true))
    } else {
        Ok((kept, false))
    }
}

/// Takes one schedule item in.
pub fn take_in(progress: Progress, candidate: Candidate, reply: Reply, now: DateTime) -> (r: Result<
    Progress,
    Error,
>)
    ensures
        result_view(r) == taken_in(progress@, candidate@, reply_view(reply), now),
{
    reveal(taken_in);
    let mut next: Progress = progress;
    let ghost before = next@;
    assert(before.seen.take(before.seen.len() as int) =~= before.seen);
    if holds_text(&next.seen, next.seen.len(), candidate.source_key.as_str()) {
        return Err(Error::plain(ErrorKind::DuplicateCandidate));
    }
    next.seen.push(candidate.source_key.clone());
    assert(views(next.seen@) =~= before.seen.push(candidate@.source_key));
    match find_record(&next.records, &candidate.source_key) {
        Some(at) => {
            proof {
                lemma_position(before.records, candidate@.source_key);
            }
            assert(before.records[at as int] == next.records@[at as int]@);
            let record: Record = next.records.remove(at);
            match keep_record(record, candidate, reply, now) {
                Err(error) => Err(error),
                Ok((kept, touched)) => {
                    next.records.insert(at, kept);
                    next.changed = next.changed || touched;
                    assert(next@.records =~= before.records.update(at as int, kept@));
                    Ok(next)
                },
            }
        },
        None => match read_answer(&candidate, reply) {
            Err(error) => Err(error),
            Ok(event) => {
                let ghost expected = new_record(candidate@, opt_view(event), now);
                let record: Record = Record {
                    uid: uid_for(candidate.source_key.as_str()),
                    source_key: candidate.source_key,
                    fingerprint: candidate.fingerprint,
                    source_text: candidate.source_text,
                    links: candidate.links,
                    active: event.is_some(),
                    event,
                    sequence: 0,
                    updated_at: now,
                };
                assert(record@ == expected);
                next.records.push(record);
                next.changed = true;
                assert(next@.records =~= before.records.push(expected));
                Ok(next)
            },
        },
    }
}

/// Tells whether somebody has to be asked about a schedule item.
pub fn must_ask(progress: &Progress, candidate: &Candidate) -> (r: bool)
    ensures
        r == asks(progress@, candidate@),
{
    let ghost now = progress@;
    assert(now.seen.take(now.seen.len() as int) =~= now.seen);
    if holds_text(&progress.seen, progress.seen.len(), candidate.source_key.as_str()) {
        return false;
    }
    match find_record(&progress.records, &candidate.source_key) {
        Some(at) => {
            proof {
                lemma_position(now.records, candidate@.source_key);
            }
            assert(now.records[at as int] == progress.records@[at as int]@);
            progress.records[at].fingerprint != candidate.fingerprint
        },
        None => true,
    }
}

/// Counts the active records.
fn count_active(records: &Vec<Record>) -> (r: usize)
    ensures
        r == active_count(views(records@)),
{
    let ghost all = views(records@);
    let mut count: usize = 0;
    let mut i: usize = 0;
    while i < records.len()
        invariant
            all == views(records@),
            i <= records@.len(),
            count <= i,
            count == active_count(all.take(i as int)),
        decreases records@.len() - i,
    {
        assert(all.take(i + 1).drop_last() =~= all.take(i as int));
        assert(all.take(i + 1).last() == records@[i as int]@);
        if records[i].active {
            count = count + 1;
        }
        i = i + 1;
    }
    assert(all.take(i as int) =~= all);
    count
}

/// Tells whether an active record has lost its schedule item.
fn has_gone(record: &Record, seen: &Vec<String>) -> (r: bool)
    ensures
        r == is_gone(record@, views(seen@)),
{
    assert(views(seen@).take(seen@.len() as int) =~= views(seen@));
    record.active && !holds_text(seen, seen.len(), record.source_key.as_str())
}

/// Counts the active records that have lost their schedule items.
fn count_gone(records: &Vec<Record>, seen: &Vec<String>) -> (r: usize)
    ensures
        r == gone_count(views(records@), views(seen@)),
{
    let ghost all = views(records@);
    let mut count: usize = 0;
    let mut i: usize = 0;
    while i < records.len()
        invariant
            all == views(records@),
            i <= records@.len(),
            count <= i,
            count == gone_count(all.take(i as int), views(seen@)),
        decreases records@.len() - i,
    {
        assert(all.take(i + 1).drop_last() =~= all.take(i as int));
        assert(all.take(i + 1).last() == records@[i as int]@);
        if has_gone(&records[i], seen) {
            count = count + 1;
        }
        i = i + 1;
    }
    assert(all.take(i as int) =~= all);
    count
}

/// A failure among the first records is the failure of all of them.
proof fn lemma_retired_first(
    records: Seq<RecordView>,
    seen: Seq<Seq<char>>,
    now: DateTime,
    at: int,
)
    requires
        0 <= at <= records.len(),
        retired(records.take(at), seen, now) is Err,
    ensures
        retired(records, seen, now) == retired(records.take(at), seen, now),
    decreases records.len() - at,
{
    if at < records.len() {
        assert(records.take(at + 1).drop_last() =~= records.take(at));
        lemma_retired_first(records, seen, now, at + 1);
    } else {
        assert(records.take(at) =~= records);
    }
}

/// Retires the active records that have lost their schedule items.
fn retire(records: Vec<Record>, seen: &Vec<String>, now: DateTime) -> (r: Result<
    Vec<Record>,
    Error,
>)
    ensures
        match r {
            Ok(left) => retired(views(records@), views(seen@), now) == Ok::<_, ErrorView>(
                views(left@),
            ),
            Err(error) => retired(views(records@), views(seen@), now) == Err::<
                Seq<RecordView>,
                _,
            >(error@),
        },
{
    let ghost all = views(records@);
    let mut left: Vec<Record> = Vec::new();
    assert(views(left@) =~= seq![]);
    for record in it: records
        invariant
            it.seq() == records@,
            all == views(records@),
            retired(all.take(it.index()), views(seen@), now) == Ok::<_, ErrorView>(views(left@)),
    {
        let ghost at = it.index();
        let ghost before = views(left@);
        assert(all.take(at + 1).drop_last() =~= all.take(at));
        assert(all.take(at + 1).last() == record@);
        let mut kept: Record = record;
        if has_gone(&kept, seen) {
            kept.active = false;
            if kept.sequence == u32::MAX {
                proof {
                    lemma_retired_first(all, views(seen@), now, at + 1);
                }
                return Err(Error::plain(ErrorKind::SequenceOverflow));
            }
            kept.sequence = kept.sequence + 1;
            kept.updated_at = now;
        }
        left.push(kept);
        assert(views(left@) =~= before.push(kept@));
    }
    assert(all.take(all.len() as int) =~= all);
    Ok(left)
}

/// Ends a reconciliation.
fn conclude(state: State, active: usize, progress: Progress, now: DateTime) -> (r: Result<
    State,
    Error,
>)
    ensures
        result_view(r) == concluded(state@, active as nat, progress@, now),
{
    reveal(concluded);
    let gone: usize = count_gone(&progress.records, &progress.seen);
    if active > 0 && gone > active / 2 {
        return Err(Error::plain(ErrorKind::TooManyRemovals));
    }
    let changed: bool = progress.changed || gone > 0;
    match retire(progress.records, &progress.seen, now) {
        Err(error) => Err(error),
        Ok(records) => {
            let next: State = State {
                version: state.version,
                schedule_url: state.schedule_url,
                generated_at: if changed {
                    now
                } else {
                    state.generated_at
                },
                records,
            };
            match validate_state(&next) {
                Err(error) => Err(error),
                Ok(_) => Ok(next),
            }
        },
    }
}

/// A failure of the first schedule items is the failure of all of them.
pub proof fn lemma_progress_first(
    records: Seq<RecordView>,
    candidates: Seq<CandidateView>,
    replies: Seq<ReplyView>,
    now: DateTime,
    count: int,
    total: int,
)
    requires
        count <= total,
        progress_after(records, candidates, replies, now, count) is Err,
    ensures
        progress_after(records, candidates, replies, now, total) == progress_after(
            records,
            candidates,
            replies,
            now,
            count,
        ),
    decreases total - count,
{
    if count < total {
        lemma_progress_first(records, candidates, replies, now, count, total - 1);
    }
}

/// The progress over the first schedule items depends on the replies about those alone.
proof fn lemma_progress_prefix(
    records: Seq<RecordView>,
    candidates: Seq<CandidateView>,
    replies: Seq<ReplyView>,
    others: Seq<ReplyView>,
    now: DateTime,
    count: int,
)
    requires
        forall|i: int| 0 <= i < count ==> #[trigger] replies[i] == others[i],
    ensures
        progress_after(records, candidates, replies, now, count) == progress_after(
            records,
            candidates,
            others,
            now,
            count,
        ),
    decreases count,
{
    if count > 0 {
        lemma_progress_prefix(records, candidates, replies, others, now, count - 1);
        assert(replies[count - 1] == others[count - 1]);
    }
}

/// Reconciles a state with schedule items about which all replies are already there. `replies[i]`
/// is what was heard about item `i`; where nobody has to be asked it does not matter.
pub fn reconcile_replies(
    state: State,
    candidates: Vec<Candidate>,
    replies: Vec<Reply>,
    now: DateTime,
) -> (r: Result<State, Error>)
    requires
        replies@.len() == candidates@.len(),
    ensures
        result_view(r) == reconciled(state@, views(candidates@), reply_views(replies@), now),
{
    match validate_state(&state) {
        Err(error) => return Err(error),
        Ok(_) => {},
    }
    if candidates.len() == 0 {
        return Err(Error::plain(ErrorKind::EmptyCandidates));
    }
    let active: usize = count_active(&state.records);
    let ghost items = views(candidates@);
    let ghost heard = reply_views(replies@);
    let ghost given = replies@;
    let ghost old_records = state@.records;
    let ghost total = candidates@.len();
    let mut progress: Progress = Progress {
        records: state.records,
        changed: false,
        seen: Vec::new(),
    };
    assert(progress@.seen =~= seq![]);
    let mut left: Vec<Reply> = replies;
    assert(given.skip(0) =~= given);
    for candidate in it: candidates
        invariant
            it.seq() == candidates@,
            items == views(candidates@),
            given == replies@,
            heard == reply_views(given),
            total == candidates@.len() == given.len(),
            total > 0,
            state_problem(state@) is None,
            old_records == state@.records,
            left@ == given.skip(it.index()),
            progress_after(old_records, items, heard, now, it.index()) == Ok::<_, ErrorView>(
                progress@,
            ),
    {
        let ghost at = it.index();
        assert(heard[at] == reply_view(given[at]));
        let reply: Reply = left.remove(0);
        assert(left@ =~= given.skip(at + 1));
        assert(items[at] == candidate@);
        match take_in(progress, candidate, reply, now) {
            Ok(next) => {
                progress = next;
            },
            Err(error) => {
                proof {
                    lemma_progress_first(old_records, items, heard, now, at + 1, total as int);
                }
                return Err(error);
            },
        }
    }
    let rest: State = State {
        version: state.version,
        schedule_url: state.schedule_url,
        generated_at: state.generated_at,
        records: Vec::new(),
    };
    reveal(concluded);
    conclude(rest, active, progress, now)
}

/// Whether the replies are what a classifier gave: there is one about exactly those items where
/// somebody had to be asked, and each is one that the classifier can give for its item.
pub open spec fn are_replies_of<C: Classifier>(
    classifier: &C,
    state: StateView,
    candidates: Seq<Candidate>,
    replies: Seq<Reply>,
    now: DateTime,
) -> bool {
    &&& replies.len() == candidates.len()
    &&& forall|i: int|
        0 <= i < replies.len() ==> match #[trigger] replies[i] {
            Some(reply) => {
                &&& is_asked(state, views(candidates), reply_views(replies), now, i)
                &&& call_ensures(C::classify, (classifier, &candidates[i]), reply)
            },
            None => !is_asked(state, views(candidates), reply_views(replies), now, i),
        }
}

/// Reconciles a state with the items of the schedule. What the classifier replies about the items
/// that are new or have changed goes into the result, and no other reply does.
pub fn reconcile<C: Classifier>(
    state: State,
    candidates: Vec<Candidate>,
    classifier: &C,
    now: DateTime,
) -> (r: Result<State, Error>)
    ensures
        exists|replies: Seq<Reply>| #[trigger]
            are_replies_of(classifier, state@, candidates@, replies, now) && result_view(r)
                == reconciled(state@, views(candidates@), reply_views(replies), now),
{
    let ghost items = views(candidates@);
    let ghost given = candidates@;
    let ghost total = candidates@.len();
    match validate_state(&state) {
        Err(error) => {
            proof {
                let replies = Seq::new(total, |i: int| None::<Result<ModelOutput, String>>);
                assert(are_replies_of(classifier, state@, given, replies, now));
            }
            return Err(error);
        },
        Ok(_) => {},
    }
    if candidates.len() == 0 {
        proof {
            let replies = Seq::<Reply>::empty();
            assert(are_replies_of(classifier, state@, given, replies, now));
        }
        return Err(Error::plain(ErrorKind::EmptyCandidates));
    }
    let active: usize = count_active(&state.records);
    let ghost old_state = state@;
    let ghost old_records = state@.records;
    let mut progress: Progress = Progress {
        records: state.records,
        changed: false,
        seen: Vec::new(),
    };
    assert(progress@.seen =~= seq![]);
    let ghost mut heard: Seq<Reply> = seq![];
    for candidate in it: candidates
        invariant
            it.seq() == candidates@,
            given == candidates@,
            items == views(candidates@),
            total == candidates@.len(),
            total > 0,
            old_state == state@,
            old_records == old_state.records,
            state_problem(old_state) is None,
            heard.len() == it.index(),
            progress_after(old_records, items, reply_views(heard), now, it.index()) == Ok::<
                _,
                ErrorView,
            >(progress@),
            forall|i: int|
                0 <= i < it.index() ==> match #[trigger] heard[i] {
                    Some(reply) => {
                        &&& is_asked(old_state, items, reply_views(heard), now, i)
                        &&& call_ensures(C::classify, (classifier, &given[i]), reply)
                    },
                    None => !is_asked(old_state, items, reply_views(heard), now, i),
                },
    {
        let ghost at = it.index();
        let ghost before = heard;
        assert(items[at] == candidate@);
        assert(candidate == given[at]);
        let reply: Reply = if must_ask(&progress, &candidate) {
            Some(classifier.classify(&candidate))
        } else {
            None
        };
        proof {
            heard = heard.push(reply);
            lemma_progress_prefix(
                old_records,
                items,
                reply_views(before),
                reply_views(heard),
                now,
                at,
            );
            assert forall|i: int| 0 <= i < at + 1 implies match #[trigger] heard[i] {
                Some(reply) => {
                    &&& is_asked(old_state, items, reply_views(heard), now, i)
                    &&& call_ensures(C::classify, (classifier, &given[i]), reply)
                },
                None => !is_asked(old_state, items, reply_views(heard), now, i),
            } by {
                if i < at {
                    assert(heard[i] == before[i]);
                    lemma_progress_prefix(
                        old_records,
                        items,
                        reply_views(before),
                        reply_views(heard),
                        now,
                        i,
                    );
                }
            }
        }
        match take_in(progress, candidate, reply, now) {
            Ok(next) => {
                progress = next;
            },
            Err(error) => {
                proof {
                    let rest = Seq::new(
                        (total - at - 1) as nat,
                        |i: int| None::<Result<ModelOutput, String>>,
                    );
                    let all = heard + rest;
                    assert forall|i: int| 0 <= i < all.len() implies match #[trigger] all[i] {
                        Some(reply) => {
                            &&& is_asked(old_state, items, reply_views(all), now, i)
                            &&& call_ensures(C::classify, (classifier, &given[i]), reply)
                        },
                        None => !is_asked(old_state, items, reply_views(all), now, i),
                    } by {
                        if i <= at {
                            assert(all[i] == heard[i]);
                            lemma_progress_prefix(
                                old_records,
                                items,
                                reply_views(heard),
                                reply_views(all),
                                now,
                                i,
                            );
                        } else {
                            lemma_progress_prefix(
                                old_records,
                                items,
                                reply_views(heard),
                                reply_views(all),
                                now,
                                at + 1,
                            );
                            lemma_progress_first(
                                old_records,
                                items,
                                reply_views(all),
                                now,
                                at + 1,
                                i,
                            );
                        }
                    }
                    lemma_progress_prefix(
                        old_records,
                        items,
                        reply_views(heard),
                        reply_views(all),
                        now,
                        at + 1,
                    );
                    lemma_progress_first(
                        old_records,
                        items,
                        reply_views(all),
                        now,
                        at + 1,
                        total as int,
                    );
                    assert(are_replies_of(classifier, old_state, given, all, now));
                }
                return Err(error);
            },
        }
    }
    let rest: State = State {
        version: state.version,
        schedule_url: state.schedule_url,
        generated_at: state.generated_at,
        records: Vec::new(),
    };
    assert(are_replies_of(classifier, old_state, given, heard, now));
    reveal(concluded);
    conclude(rest, active, progress, now)
}

/// The texts of the records from position `known` on that have no event.
pub open spec fn skipped_texts(records: Seq<RecordView>, known: int) -> Seq<Seq<char>>
    decreases records.len(),
{
    if records.len() == 0 || records.len() <= known {
        seq![]
    } else if records.last().event is None {
        skipped_texts(records.drop_last(), known).push(records.last().source_text)
    } else {
        skipped_texts(records.drop_last(), known)
    }
}

/// Lists the texts of the new items that were kept without an event: those of the records behind
/// the `known` first ones.
pub fn skipped_items(state: &State, known: usize) -> (r: Vec<String>)
    ensures
        views(r@) == skipped_texts(state@.records, known as int),
{
    let ghost all = state@.records;
    let mut texts: Vec<String> = Vec::new();
    let mut i: usize = 0;
    assert(views(texts@) =~= seq![]);
    while i < state.records.len()
        invariant
            all == state@.records,
            i <= state.records@.len(),
            views(texts@) == skipped_texts(all.take(i as int), known as int),
        decreases state.records@.len() - i,
    {
        let ghost before = views(texts@);
        assert(all.take(i + 1).drop_last() =~= all.take(i as int));
        assert(all.take(i + 1).last() == state.records@[i as int]@);
        if i >= known && state.records[i].event.is_none() {
            texts.push(state.records[i].source_text.clone());
            assert(views(texts@) =~= before.push(all[i as int].source_text));
        }
        i = i + 1;
    }
    assert(all.take(i as int) =~= all);
    texts
}

/// One record more counts as active exactly where it is, and as one that lost its item exactly
/// where it is active and its source is not among those that were seen.
pub proof fn law_counts(records: Seq<RecordView>, record: RecordView, seen: Seq<Seq<char>>)
    ensures
        active_count(seq![]) == 0,
        gone_count(seq![], seen) == 0,
        active_count(records.push(record)) == active_count(records) + if record.active {
            1nat
        } else {
            0nat
        },
        gone_count(records.push(record), seen) == gone_count(records, seen) + if record.active
            && !seen.contains(record.source_key) {
            1nat
        } else {
            0nat
        },
{
    assert(records.push(record).drop_last() =~= records);
}

/// What a reply about an item comes to is what the reply is held to be, and a failure names the
/// item. Nothing that is said in place of a reply is accepted.
pub proof fn law_reply_is_judged(candidate: CandidateView, reply: ReplyView)
    ensures
        reply matches Some(Ok(output)) ==> match model_verdict(candidate, output) {
            Ok(event) => answer(candidate, reply) == Ok::<_, ErrorView>(event),
            Err(error) => answer(candidate, reply) matches Err(found) && found.kind == error.kind
                && found.subject == error.subject && found.context == candidate.source_text,
        },
        reply matches Some(Err(message)) ==> (answer(candidate, reply) matches Err(error)
            && error.kind == ErrorKind::ClassifierFailed && error.subject == message
            && error.context == candidate.source_text),
        reply is None ==> answer(candidate, reply) is Err,
{
    reveal(answer);
}

/// One record more is listed exactly where it is beyond the known ones and has no event, with its
/// text.
pub proof fn law_skipped(records: Seq<RecordView>, record: RecordView, known: int)
    requires
        0 <= known,
    ensures
        skipped_texts(seq![], known) == Seq::<Seq<char>>::empty(),
        records.len() >= known && record.event is None ==> skipped_texts(
            records.push(record),
            known,
        ) == skipped_texts(records, known).push(record.source_text),
        records.len() < known || record.event is Some ==> skipped_texts(
            records.push(record),
            known,
        ) == skipped_texts(records, known),
{
    assert(records.push(record).drop_last() =~= records);
    if records.len() < known {
        assert(records.push(record).len() <= known);
    }
}

/// A refused update tells its kind, and a failure about an item names the item.
pub proof fn law_kinds_of_refused_updates(
    state: StateView,
    record: RecordView,
    candidate: CandidateView,
    candidates: Seq<CandidateView>,
    replies: Seq<ReplyView>,
    reply: ReplyView,
    progress: ProgressView,
    now: DateTime,
)
    ensures
        state_problem(state) is None && candidates.len() == 0 ==> (reconciled(
            state,
            candidates,
            replies,
            now,
        ) matches Err(error) && error.kind == ErrorKind::EmptyCandidates),
        revised(record, now) matches Err(error) ==> error.kind == ErrorKind::SequenceOverflow
            && record.sequence == u32::MAX,
        progress.seen.contains(candidate.source_key) ==> (taken_in(
            progress,
            candidate,
            reply,
            now,
        ) matches Err(error) && error.kind == ErrorKind::DuplicateCandidate),
        record.fingerprint != candidate.fingerprint && record.event is Some && answer(
            candidate,
            reply,
        ) == Ok::<_, ErrorView>(None::<EventView>) ==> (kept_record(record, candidate, reply, now) matches Err(
            error,
        ) && error.kind == ErrorKind::EventLost && error.subject == candidate.source_text),
        answer(candidate, reply) matches Err(error) ==> error.context == candidate.source_text,
        active_count(state.records) > 0 && gone_count(progress.records, progress.seen) * 2
            > active_count(state.records) ==> (concluded(
            state,
            active_count(state.records),
            progress,
            now,
        ) matches Err(error) && error.kind == ErrorKind::TooManyRemovals),
{
    reveal(answer);
    reveal(taken_in);
    reveal(kept_record);
    reveal(concluded);
}

} // verus!
