//! What a reconciliation keeps, and what it lets a reply decide.

use vstd::prelude::*;

use crate::calendar::{
    calendar_of, has_writable_deadline, law_accepted_deadline_is_written,
    law_good_state_has_a_calendar,
};
use crate::clock::{in_term, DateTime};
use crate::digest::uid_of;
use crate::model::{CandidateView, ErrorView, EventView, RecordView, StateView};
use crate::reconcile::{
    active_count, answer, asks, concluded, gone_count, is_asked, is_gone, kept_record,
    lemma_position, lemma_progress_first, new_record, position, progress_after, reconciled, retired,
    revised, taken_in, ProgressView, ReplyView,
};
use crate::state::{
    are_sound, has_own_identities, is_sound_record, law_accepted_states, link_problem,
    state_problem,
};
use crate::validate::{are_link_ids, law_accepted_event, model_verdict};

verus! {

/// The sources of schedule items.
pub open spec fn keys_of(candidates: Seq<CandidateView>) -> Seq<Seq<char>> {
    candidates.map_values(|candidate: CandidateView| candidate.source_key)
}

/// Where the item of a source stands among the first `count` schedule items.
pub open spec fn item_at(candidates: Seq<CandidateView>, source_key: Seq<char>, count: int) -> Option<
    int,
>
    decreases count,
{
    if count <= 0 {
        None
    } else if candidates[count - 1].source_key == source_key {
        Some(count - 1)
    } else {
        item_at(candidates, source_key, count - 1)
    }
}

/// Which of the first `count` schedule items no record is kept of, in order.
pub open spec fn new_items(
    records: Seq<RecordView>,
    candidates: Seq<CandidateView>,
    count: int,
) -> Seq<int>
    decreases count,
{
    if count <= 0 {
        seq![]
    } else if position(records, candidates[count - 1].source_key) is None {
        new_items(records, candidates, count - 1).push(count - 1)
    } else {
        new_items(records, candidates, count - 1)
    }
}

/// The item of a source is one of it, and there is one where a source is among the items.
proof fn lemma_item_at(candidates: Seq<CandidateView>, source_key: Seq<char>, count: int)
    requires
        0 <= count <= candidates.len(),
    ensures
        match item_at(candidates, source_key, count) {
            Some(at) => 0 <= at < count && candidates[at].source_key == source_key,
            None => true,
        },
        item_at(candidates, source_key, count) is Some <==> keys_of(candidates).take(
            count,
        ).contains(source_key),
    decreases count,
{
    if count > 0 {
        let last = count - 1;
        lemma_item_at(candidates, source_key, last);
        let keys = keys_of(candidates);
        let now = keys.take(count);
        let before = keys.take(last);
        assert(now[last] == candidates[last].source_key);
        assert(forall|k: int| 0 <= k < last ==> now[k] == #[trigger] before[k]);
        if before.contains(source_key) {
            let k = choose|k: int| 0 <= k < before.len() && before[k] == source_key;
            assert(now[k] == source_key);
        }
        if now.contains(source_key) && candidates[last].source_key != source_key {
            let k = choose|k: int| 0 <= k < now.len() && now[k] == source_key;
            assert(before[k] == source_key);
        }
    }
}

/// The new items are among the items, and no record is kept of them.
proof fn lemma_new_items(
    records: Seq<RecordView>,
    candidates: Seq<CandidateView>,
    count: int,
)
    ensures
        forall|k: int|
            0 <= k < new_items(records, candidates, count).len() ==> 0 <= #[trigger] new_items(
                records,
                candidates,
                count,
            )[k] < count && position(
                records,
                candidates[new_items(records, candidates, count)[k]].source_key,
            ) is None,
    decreases count,
{
    if count > 0 {
        lemma_new_items(records, candidates, count - 1);
    }
}

/// Whether a record is that of schedule item `at`, kept from before or as it was where the item
/// is missing.
pub open spec fn is_kept_as(
    old: RecordView,
    candidates: Seq<CandidateView>,
    replies: Seq<ReplyView>,
    now: DateTime,
    item: Option<int>,
    record: RecordView,
) -> bool {
    match item {
        None => record == old,
        Some(at) => match kept_record(old, candidates[at], replies[at], now) {
            Ok((kept, _)) => record == kept,
            Err(_) => false,
        },
    }
}

/// Whether a record is that of the new schedule item `at`.
pub open spec fn is_made_for(
    candidates: Seq<CandidateView>,
    replies: Seq<ReplyView>,
    now: DateTime,
    at: int,
    record: RecordView,
) -> bool {
    match answer(candidates[at], replies[at]) {
        Ok(event) => record == new_record(candidates[at], event, now),
        Err(_) => false,
    }
}

/// Whether the old records stand as the first `count` items left them.
spec fn keeps(
    old: Seq<RecordView>,
    candidates: Seq<CandidateView>,
    replies: Seq<ReplyView>,
    now: DateTime,
    count: int,
    records: Seq<RecordView>,
) -> bool {
    forall|i: int|
        0 <= i < old.len() ==> is_kept_as(
            #[trigger] old[i],
            candidates,
            replies,
            now,
            item_at(candidates, old[i].source_key, count),
            records[i],
        )
}

/// Whether the records after the old ones are those of the new items among the first `count`.
spec fn adds(
    old: Seq<RecordView>,
    candidates: Seq<CandidateView>,
    replies: Seq<ReplyView>,
    now: DateTime,
    count: int,
    records: Seq<RecordView>,
) -> bool {
    let fresh = new_items(old, candidates, count);
    &&& records.len() == old.len() + fresh.len()
    &&& forall|k: int|
        0 <= k < fresh.len() ==> is_made_for(
            candidates,
            replies,
            now,
            #[trigger] fresh[k],
            records[old.len() + k],
        )
}

/// Whether no two of the first `count` schedule items have the same source.
pub open spec fn have_own_sources(candidates: Seq<CandidateView>, count: int) -> bool {
    forall|at: int, later: int|
        0 <= at < later < count ==> (#[trigger] candidates[at]).source_key != (
        #[trigger] candidates[later]).source_key
}

/// A record that is kept keeps its source, and changes exactly where it is touched.
proof fn lemma_kept(record: RecordView, candidate: CandidateView, reply: ReplyView, now: DateTime)
    requires
        is_sound_record(record),
    ensures
        kept_record(record, candidate, reply, now) matches Ok((kept, touched)) ==> {
            &&& kept.source_key == record.source_key
            &&& kept.uid == record.uid
            &&& touched <==> kept != record
            &&& touched ==> kept.sequence == record.sequence + 1 && kept.updated_at == now
            &&& kept.active <==> kept.event is Some
            &&& record.event is Some ==> kept.event is Some
            &&& kept.fingerprint == candidate.fingerprint
        },
{
    reveal(kept_record);
}

/// The record that a schedule item is found at is an old one that was not touched.
proof fn lemma_found(
    old: Seq<RecordView>,
    candidates: Seq<CandidateView>,
    replies: Seq<ReplyView>,
    now: DateTime,
    count: int,
    records: Seq<RecordView>,
)
    requires
        are_sound(old),
        0 <= count < candidates.len(),
        keeps(old, candidates, replies, now, count, records),
        adds(old, candidates, replies, now, count, records),
        !keys_of(candidates).take(count).contains(candidates[count].source_key),
    ensures
        position(records, candidates[count].source_key) == position(
            old,
            candidates[count].source_key,
        ),
        position(old, candidates[count].source_key) matches Some(found) ==> 0 <= found < old.len()
            && records[found] == old[found] && old[found].source_key
            == candidates[count].source_key,
{
    let key = candidates[count].source_key;
    lemma_position(records, key);
    lemma_position(old, key);
    lemma_item_at(candidates, key, count);
    assert forall|i: int| 0 <= i < old.len() implies (#[trigger] records[i]).source_key
        == old[i].source_key by {
        let item = item_at(candidates, old[i].source_key, count);
        assert(is_kept_as(old[i], candidates, replies, now, item, records[i]));
        if item is Some {
            lemma_kept(old[i], candidates[item->0], replies[item->0], now);
        }
    }
    let fresh = new_items(old, candidates, count);
    lemma_new_items(old, candidates, count);
    assert forall|i: int| old.len() <= i < records.len() implies (#[trigger] records[i]).source_key
        != key by {
        let k = i - old.len();
        assert(is_made_for(candidates, replies, now, fresh[k], records[old.len() + k]));
        assert(keys_of(candidates).take(count)[fresh[k]] == candidates[fresh[k]].source_key);
    }
    match position(old, key) {
        Some(found) => {
            assert(records[found].source_key == key);
            let item = item_at(candidates, old[found].source_key, count);
            assert(is_kept_as(old[found], candidates, replies, now, item, records[found]));
        },
        None => {},
    }
}

/// How the records stand after some schedule items.
proof fn lemma_progress(
    old: Seq<RecordView>,
    candidates: Seq<CandidateView>,
    replies: Seq<ReplyView>,
    now: DateTime,
    count: int,
    progress: ProgressView,
)
    requires
        are_sound(old),
        0 <= count <= candidates.len(),
        progress_after(old, candidates, replies, now, count) == Ok::<_, ErrorView>(progress),
    ensures
        progress.seen == keys_of(candidates).take(count),
        have_own_sources(candidates, count),
        keeps(old, candidates, replies, now, count, progress.records),
        adds(old, candidates, replies, now, count, progress.records),
        progress.changed <==> progress.records != old,
    decreases count,
{
    let keys = keys_of(candidates);
    if count == 0 {
        assert(progress.seen =~= keys.take(0));
    } else {
        let last = count - 1;
        let before = progress_after(old, candidates, replies, now, last)->Ok_0;
        lemma_progress(old, candidates, replies, now, last, before);
        let key = candidates[last].source_key;
        reveal(taken_in);
        assert(!before.seen.contains(key));
        assert(progress.seen =~= keys.take(count)) by {
            assert(keys.take(count) =~= keys.take(last).push(keys[last]));
        }
        assert forall|at: int| 0 <= at < last implies (#[trigger] candidates[at]).source_key
            != key by {
            assert(keys.take(last)[at] == candidates[at].source_key);
        }
        lemma_found(old, candidates, replies, now, last, before.records);
        let fresh = new_items(old, candidates, last);
        match position(old, key) {
            Some(found) => {
                lemma_kept(old[found], candidates[last], replies[last], now);
                let kept = progress.records[found];
                assert(progress.records == before.records.update(found, kept));
                assert forall|i: int| 0 <= i < old.len() implies is_kept_as(
                    #[trigger] old[i],
                    candidates,
                    replies,
                    now,
                    item_at(candidates, old[i].source_key, count),
                    progress.records[i],
                ) by {
                    if i != found {
                        assert(old[i].source_key != key);
                        assert(progress.records[i] == before.records[i]);
                    }
                }
                assert forall|k: int| 0 <= k < fresh.len() implies is_made_for(
                    candidates,
                    replies,
                    now,
                    #[trigger] fresh[k],
                    progress.records[old.len() + k],
                ) by {
                    assert(progress.records[old.len() + k] == before.records[old.len() + k]);
                }
                if progress.records == old {
                    assert(before.records =~= old);
                } else if !before.changed {
                    if kept == old[found] {
                        assert(progress.records =~= old);
                    }
                }
            },
            None => {
                let added = progress.records.last();
                assert(progress.records == before.records.push(added));
                assert forall|i: int| 0 <= i < old.len() implies is_kept_as(
                    #[trigger] old[i],
                    candidates,
                    replies,
                    now,
                    item_at(candidates, old[i].source_key, count),
                    progress.records[i],
                ) by {
                    lemma_position(old, key);
                    assert(old[i].source_key != key);
                    assert(progress.records[i] == before.records[i]);
                }
                let all = new_items(old, candidates, count);
                assert forall|k: int| 0 <= k < all.len() implies is_made_for(
                    candidates,
                    replies,
                    now,
                    #[trigger] all[k],
                    progress.records[old.len() + k],
                ) by {
                    if k < fresh.len() {
                        assert(all[k] == fresh[k]);
                        assert(progress.records[old.len() + k] == before.records[old.len() + k]);
                    }
                }
            },
        }
    }
}

/// What a record is once those that lost their items are retired.
pub open spec fn is_left_as(
    record: RecordView,
    seen: Seq<Seq<char>>,
    now: DateTime,
    left: RecordView,
) -> bool {
    if is_gone(record, seen) {
        revised(RecordView { active: false, ..record }, now) == Ok::<_, ErrorView>(left)
    } else {
        left == record
    }
}

/// Retiring goes record by record.
proof fn lemma_retired(
    records: Seq<RecordView>,
    seen: Seq<Seq<char>>,
    now: DateTime,
    left: Seq<RecordView>,
)
    requires
        retired(records, seen, now) == Ok::<_, ErrorView>(left),
    ensures
        left.len() == records.len(),
        forall|i: int|
            0 <= i < records.len() ==> is_left_as(#[trigger] records[i], seen, now, left[i]),
        gone_count(records, seen) > 0 <==> left != records,
    decreases records.len(),
{
    if records.len() > 0 {
        let front = retired(records.drop_last(), seen, now)->Ok_0;
        lemma_retired(records.drop_last(), seen, now, front);
        assert forall|i: int| 0 <= i < records.len() implies is_left_as(
            #[trigger] records[i],
            seen,
            now,
            left[i],
        ) by {
            if i < records.len() - 1 {
                assert(records.drop_last()[i] == records[i]);
                assert(left[i] == front[i]);
            }
        }
        assert(left.drop_last() =~= front);
        if left == records {
            assert(front =~= records.drop_last());
        } else if gone_count(records, seen) == 0 {
            assert(left =~= records);
        }
    } else {
        assert(left =~= records);
    }
}

/// Whether a record is what becomes of an old one: kept where its schedule item is there, retired
/// where the item is gone and it was active, and else untouched.
pub open spec fn is_fate_of(
    old: RecordView,
    candidates: Seq<CandidateView>,
    replies: Seq<ReplyView>,
    now: DateTime,
    record: RecordView,
) -> bool {
    match item_at(candidates, old.source_key, candidates.len() as int) {
        Some(at) => match kept_record(old, candidates[at], replies[at], now) {
            Ok((kept, _)) => record == kept,
            Err(_) => false,
        },
        None => if old.active {
            revised(RecordView { active: false, ..old }, now) == Ok::<_, ErrorView>(record)
        } else {
            record == old
        },
    }
}

/// A reconciliation keeps every record in its place: those whose schedule items are still there
/// are brought up to date, active ones whose items are gone are retired, the rest stay as they
/// are. Records of the new items follow, in the order of the schedule. The state is stamped with
/// the moment exactly where a record changed or came in.
pub proof fn law_fate_of_records(
    state: StateView,
    candidates: Seq<CandidateView>,
    replies: Seq<ReplyView>,
    now: DateTime,
    next: StateView,
)
    requires
        reconciled(state, candidates, replies, now) == Ok::<_, ErrorView>(next),
    ensures
        have_own_sources(candidates, candidates.len() as int),
        next.records.len() == state.records.len() + new_items(
            state.records,
            candidates,
            candidates.len() as int,
        ).len(),
        forall|i: int|
            0 <= i < state.records.len() ==> is_fate_of(
                #[trigger] state.records[i],
                candidates,
                replies,
                now,
                next.records[i],
            ),
        forall|k: int|
            0 <= k < new_items(state.records, candidates, candidates.len() as int).len()
                ==> is_made_for(
                candidates,
                replies,
                now,
                #[trigger] new_items(state.records, candidates, candidates.len() as int)[k],
                next.records[state.records.len() + k],
            ),
        next == (StateView {
            records: next.records,
            generated_at: if next.records == state.records {
                state.generated_at
            } else {
                now
            },
            ..state
        }),
{
    let old = state.records;
    let total = candidates.len() as int;
    law_accepted_states(state);
    reveal(concluded);
    let progress = progress_after(old, candidates, replies, now, total)->Ok_0;
    let records = progress.records;
    lemma_progress(old, candidates, replies, now, total, progress);
    let keys = keys_of(candidates);
    assert(keys.take(total) =~= keys);
    lemma_retired(records, keys, now, next.records);
    assert forall|i: int| 0 <= i < old.len() implies is_fate_of(
        #[trigger] old[i],
        candidates,
        replies,
        now,
        next.records[i],
    ) by {
        let item = item_at(candidates, old[i].source_key, total);
        assert(is_kept_as(old[i], candidates, replies, now, item, records[i]));
        assert(is_left_as(records[i], keys, now, next.records[i]));
        lemma_item_at(candidates, old[i].source_key, total);
        if item is Some {
            lemma_kept(old[i], candidates[item->0], replies[item->0], now);
        }
    }
    let fresh = new_items(old, candidates, total);
    lemma_new_items(old, candidates, total);
    assert forall|k: int| 0 <= k < fresh.len() implies is_made_for(
        candidates,
        replies,
        now,
        #[trigger] fresh[k],
        next.records[old.len() + k],
    ) by {
        let record = records[old.len() + k];
        assert(is_made_for(candidates, replies, now, fresh[k], record));
        assert(is_left_as(record, keys, now, next.records[old.len() + k]));
        assert(keys[fresh[k]] == record.source_key);
    }
    if next.records == old {
        assert forall|i: int| 0 <= i < old.len() implies records[i] == #[trigger] old[i] by {
            let item = item_at(candidates, old[i].source_key, total);
            assert(is_kept_as(old[i], candidates, replies, now, item, records[i]));
            assert(is_left_as(records[i], keys, now, next.records[i]));
            lemma_item_at(candidates, old[i].source_key, total);
            if item is Some {
                lemma_kept(old[i], candidates[item->0], replies[item->0], now);
            }
        }
        assert(records =~= old);
    }
}

/// Where no two schedule items have the same source, none of them is met as a duplicate.
pub proof fn law_own_sources_are_no_duplicates(
    state: StateView,
    candidates: Seq<CandidateView>,
    replies: Seq<ReplyView>,
    now: DateTime,
    at: int,
)
    requires
        state_problem(state) is None,
        have_own_sources(candidates, candidates.len() as int),
        0 <= at < candidates.len(),
    ensures
        progress_after(state.records, candidates, replies, now, at) matches Ok(progress)
            ==> !progress.seen.contains(candidates[at].source_key),
{
    match progress_after(state.records, candidates, replies, now, at) {
        Ok(progress) => {
            law_accepted_states(state);
            lemma_progress(state.records, candidates, replies, now, at, progress);
            let key = candidates[at].source_key;
            lemma_item_at(candidates, key, at);
        },
        Err(_) => {},
    }
}

/// A reconciliation ends in a state that keeps the rules, or it fails.
pub proof fn law_result_is_accepted(
    state: StateView,
    candidates: Seq<CandidateView>,
    replies: Seq<ReplyView>,
    now: DateTime,
    next: StateView,
)
    requires
        reconciled(state, candidates, replies, now) == Ok::<_, ErrorView>(next),
    ensures
        state_problem(next) is None,
{
    reveal(concluded);
}

/// The identifier of an event is stable. Each old record keeps its place, its source and its
/// identifier. It is either untouched, or it has the next revision number and is stamped with the
/// moment. An event that was there stays there.
pub proof fn law_identity_and_revision(
    state: StateView,
    candidates: Seq<CandidateView>,
    replies: Seq<ReplyView>,
    now: DateTime,
    next: StateView,
    i: int,
)
    requires
        reconciled(state, candidates, replies, now) == Ok::<_, ErrorView>(next),
        0 <= i < state.records.len(),
    ensures
        i < next.records.len(),
        next.records[i].source_key == state.records[i].source_key,
        next.records[i].uid == state.records[i].uid,
        state.records[i].event is Some ==> next.records[i].event is Some,
        next.records[i] == state.records[i] || {
            &&& next.records[i].sequence == state.records[i].sequence + 1
            &&& next.records[i].updated_at == now
        },
{
    law_fate_of_records(state, candidates, replies, now, next);
    law_accepted_states(state);
    let old = state.records[i];
    assert(is_fate_of(old, candidates, replies, now, next.records[i]));
    match item_at(candidates, old.source_key, candidates.len() as int) {
        Some(at) => {
            lemma_kept(old, candidates[at], replies[at], now);
        },
        None => {},
    }
}

/// An active event is one of the schedule: there is an item with its source and its fingerprint.
pub proof fn law_active_events_are_scheduled(
    state: StateView,
    candidates: Seq<CandidateView>,
    replies: Seq<ReplyView>,
    now: DateTime,
    next: StateView,
    i: int,
)
    requires
        reconciled(state, candidates, replies, now) == Ok::<_, ErrorView>(next),
        0 <= i < next.records.len(),
        next.records[i].active,
    ensures
        next.records[i].event is Some,
        exists|at: int|
            0 <= at < candidates.len() && (#[trigger] candidates[at]).source_key
                == next.records[i].source_key && candidates[at].fingerprint
                == next.records[i].fingerprint,
{
    law_fate_of_records(state, candidates, replies, now, next);
    law_accepted_states(state);
    let total = candidates.len() as int;
    if i < state.records.len() {
        let old = state.records[i];
        assert(is_fate_of(old, candidates, replies, now, next.records[i]));
        lemma_item_at(candidates, old.source_key, total);
        match item_at(candidates, old.source_key, total) {
            Some(at) => {
                lemma_kept(old, candidates[at], replies[at], now);
                assert(candidates[at].source_key == next.records[i].source_key);
            },
            None => {},
        }
    } else {
        let fresh = new_items(state.records, candidates, total);
        lemma_new_items(state.records, candidates, total);
        let at = fresh[i - state.records.len()];
        assert(is_made_for(candidates, replies, now, at, next.records[i]));
        assert(candidates[at].source_key == next.records[i].source_key);
    }
}

/// A record whose item is gone stays, with its event and everything else; an active one is
/// retired, which is a revision.
pub proof fn law_missing_item_is_retired(
    state: StateView,
    candidates: Seq<CandidateView>,
    replies: Seq<ReplyView>,
    now: DateTime,
    next: StateView,
    i: int,
)
    requires
        reconciled(state, candidates, replies, now) == Ok::<_, ErrorView>(next),
        0 <= i < state.records.len(),
        !keys_of(candidates).contains(state.records[i].source_key),
    ensures
        next.records[i] == if state.records[i].active {
            RecordView {
                active: false,
                sequence: (state.records[i].sequence + 1) as u32,
                updated_at: now,
                ..state.records[i]
            }
        } else {
            state.records[i]
        },
{
    law_fate_of_records(state, candidates, replies, now, next);
    let old = state.records[i];
    let total = candidates.len() as int;
    assert(is_fate_of(old, candidates, replies, now, next.records[i]));
    lemma_item_at(candidates, old.source_key, total);
    assert(keys_of(candidates).take(total) =~= keys_of(candidates));
}

/// A retired record whose item comes back unchanged is active again with the event that it had,
/// which is a revision. Nobody is asked.
pub proof fn law_returning_item_is_reactivated(
    state: StateView,
    candidates: Seq<CandidateView>,
    replies: Seq<ReplyView>,
    now: DateTime,
    next: StateView,
    i: int,
    at: int,
)
    requires
        reconciled(state, candidates, replies, now) == Ok::<_, ErrorView>(next),
        0 <= i < state.records.len(),
        0 <= at < candidates.len(),
        state.records[i].source_key == candidates[at].source_key,
        state.records[i].fingerprint == candidates[at].fingerprint,
        state.records[i].event is Some,
        !state.records[i].active,
    ensures
        next.records[i] == (RecordView {
            active: true,
            sequence: (state.records[i].sequence + 1) as u32,
            updated_at: now,
            ..state.records[i]
        }),
        !is_asked(state, candidates, replies, now, at),
{
    law_unchanged_items_are_not_asked(state, candidates, replies, now, i, at);
    law_fate_of_records(state, candidates, replies, now, next);
    let old = state.records[i];
    let total = candidates.len() as int;
    assert(is_fate_of(old, candidates, replies, now, next.records[i]));
    lemma_item_at(candidates, old.source_key, total);
    assert(keys_of(candidates).take(total)[at] == old.source_key);
    assert(item_at(candidates, old.source_key, total) == Some(at));
    reveal(kept_record);
}

/// A changed item leaves its record with the text and the links of the item, and with the event
/// that the reply came to.
pub proof fn law_changed_item_is_taken_over(
    state: StateView,
    candidates: Seq<CandidateView>,
    replies: Seq<ReplyView>,
    now: DateTime,
    next: StateView,
    i: int,
    at: int,
)
    requires
        reconciled(state, candidates, replies, now) == Ok::<_, ErrorView>(next),
        0 <= i < state.records.len(),
        0 <= at < candidates.len(),
        state.records[i].source_key == candidates[at].source_key,
        state.records[i].fingerprint != candidates[at].fingerprint,
    ensures
        replies[at] matches Some(Ok(output)) && {
            let event = model_verdict(candidates[at], output);
            event is Ok && next.records[i] == (RecordView {
                fingerprint: candidates[at].fingerprint,
                source_text: candidates[at].source_text,
                links: candidates[at].links,
                event: event->Ok_0,
                active: event->Ok_0 is Some,
                sequence: (state.records[i].sequence + 1) as u32,
                updated_at: now,
                ..state.records[i]
            })
        },
{
    law_fate_of_records(state, candidates, replies, now, next);
    let old = state.records[i];
    let total = candidates.len() as int;
    assert(is_fate_of(old, candidates, replies, now, next.records[i]));
    lemma_item_at(candidates, old.source_key, total);
    assert(keys_of(candidates).take(total)[at] == old.source_key);
    assert(item_at(candidates, old.source_key, total) == Some(at));
    reveal(kept_record);
    reveal(answer);
}

/// Every schedule item has its record in the result, with the fingerprint of the item.
pub proof fn law_every_item_has_a_record(
    state: StateView,
    candidates: Seq<CandidateView>,
    replies: Seq<ReplyView>,
    now: DateTime,
    next: StateView,
    at: int,
)
    requires
        reconciled(state, candidates, replies, now) == Ok::<_, ErrorView>(next),
        0 <= at < candidates.len(),
    ensures
        exists|i: int|
            0 <= i < next.records.len() && (#[trigger] next.records[i]).source_key
                == candidates[at].source_key && next.records[i].fingerprint
                == candidates[at].fingerprint && (next.records[i].active
                <==> next.records[i].event is Some),
{
    law_fate_of_records(state, candidates, replies, now, next);
    law_accepted_states(state);
    let total = candidates.len() as int;
    let key = candidates[at].source_key;
    lemma_position(state.records, key);
    match position(state.records, key) {
        Some(i) => {
            let old = state.records[i];
            assert(is_fate_of(old, candidates, replies, now, next.records[i]));
            lemma_item_at(candidates, key, total);
            assert(keys_of(candidates).take(total)[at] == key);
            let found = item_at(candidates, key, total)->0;
            assert(found == at);
            lemma_kept(old, candidates[at], replies[at], now);
            assert(next.records[i].source_key == key);
        },
        None => {
            lemma_new_item_listed(state.records, candidates, total, at);
            let fresh = new_items(state.records, candidates, total);
            let k = choose|k: int| 0 <= k < fresh.len() && fresh[k] == at;
            assert(is_made_for(
                candidates,
                replies,
                now,
                fresh[k],
                next.records[state.records.len() + k],
            ));
            assert(next.records[state.records.len() + k].source_key == key);
        },
    }
}

/// An item of which no record is kept is listed among the new ones.
proof fn lemma_new_item_listed(
    records: Seq<RecordView>,
    candidates: Seq<CandidateView>,
    count: int,
    at: int,
)
    requires
        0 <= at < count <= candidates.len(),
        position(records, candidates[at].source_key) is None,
    ensures
        exists|k: int|
            0 <= k < new_items(records, candidates, count).len() && #[trigger] new_items(
                records,
                candidates,
                count,
            )[k] == at,
    decreases count,
{
    let all = new_items(records, candidates, count);
    let before = new_items(records, candidates, count - 1);
    if at == count - 1 {
        assert(all[before.len() as int] == at);
    } else {
        lemma_new_item_listed(records, candidates, count - 1, at);
        let k = choose|k: int| 0 <= k < before.len() && before[k] == at;
        assert(all[k] == at);
    }
}

/// Records beyond some others count for nothing where none of them has lost its item.
proof fn lemma_gone_count(
    records: Seq<RecordView>,
    others: Seq<RecordView>,
    seen: Seq<Seq<char>>,
)
    requires
        others.len() <= records.len(),
        forall|i: int|
            0 <= i < others.len() ==> is_gone(#[trigger] records[i], seen) == is_gone(
                others[i],
                seen,
            ),
        forall|i: int|
            others.len() <= i < records.len() ==> !is_gone(#[trigger] records[i], seen),
    ensures
        gone_count(records, seen) == gone_count(others, seen),
    decreases records.len(),
{
    if records.len() > others.len() {
        lemma_gone_count(records.drop_last(), others, seen);
    } else if records.len() > 0 {
        lemma_gone_count(records.drop_last(), others.drop_last(), seen);
        assert(records[records.len() - 1] == records.last());
    }
}

/// An update that would retire more than half of the active events is refused.
pub proof fn law_large_removal_is_refused(
    state: StateView,
    candidates: Seq<CandidateView>,
    replies: Seq<ReplyView>,
    now: DateTime,
)
    requires
        gone_count(state.records, keys_of(candidates)) * 2 > active_count(state.records),
        active_count(state.records) > 0,
    ensures
        reconciled(state, candidates, replies, now) is Err,
{
    if reconciled(state, candidates, replies, now) is Ok {
        let old = state.records;
        let total = candidates.len() as int;
        law_accepted_states(state);
        reveal(concluded);
        let progress = progress_after(old, candidates, replies, now, total)->Ok_0;
        let records = progress.records;
        lemma_progress(old, candidates, replies, now, total, progress);
        let keys = keys_of(candidates);
        assert(keys.take(total) =~= keys);
        assert forall|i: int| 0 <= i < old.len() implies is_gone(#[trigger] records[i], keys)
            == is_gone(old[i], keys) by {
            let item = item_at(candidates, old[i].source_key, total);
            assert(is_kept_as(old[i], candidates, replies, now, item, records[i]));
            lemma_item_at(candidates, old[i].source_key, total);
            if item is Some {
                lemma_kept(old[i], candidates[item->0], replies[item->0], now);
            }
        }
        let fresh = new_items(old, candidates, total);
        lemma_new_items(old, candidates, total);
        assert forall|i: int| old.len() <= i < records.len() implies !is_gone(
            #[trigger] records[i],
            keys,
        ) by {
            let k = i - old.len();
            assert(is_made_for(candidates, replies, now, fresh[k], records[old.len() + k]));
            assert(keys[fresh[k]] == records[i].source_key);
        }
        lemma_gone_count(records, old, keys);
    }
}

/// Whether a record is another one but for whether it is active, its revision and its moment, and
/// has an event where it is active.
spec fn is_revision_of(record: RecordView, old: RecordView) -> bool {
    &&& record == (RecordView {
        active: record.active,
        sequence: record.sequence,
        updated_at: record.updated_at,
        ..old
    })
    &&& record.active ==> record.event is Some
}

/// Items that have not changed are taken in, whatever the replies. Only records of those that were
/// taken in are revised.
proof fn lemma_unchanged_progress(
    records: Seq<RecordView>,
    candidates: Seq<CandidateView>,
    replies: Seq<ReplyView>,
    now: DateTime,
    count: int,
)
    requires
        are_sound(records),
        0 <= count <= candidates.len(),
        have_own_sources(candidates, candidates.len() as int),
        forall|at: int| 0 <= at < candidates.len() ==> is_unchanged(records, candidates[at]),
        forall|i: int| 0 <= i < records.len() ==> (#[trigger] records[i]).sequence < u32::MAX,
    ensures
        progress_after(records, candidates, replies, now, count) matches Ok(progress) && {
            &&& progress.seen == keys_of(candidates).take(count)
            &&& progress.records.len() == records.len()
            &&& forall|i: int|
                0 <= i < records.len() ==> {
                    &&& is_revision_of(#[trigger] progress.records[i], records[i])
                    &&& !progress.seen.contains(records[i].source_key) ==> progress.records[i]
                        == records[i]
                }
        },
    decreases count,
{
    let keys = keys_of(candidates);
    if count == 0 {
        assert(keys.take(0) =~= seq![]);
        assert forall|i: int| 0 <= i < records.len() implies is_revision_of(
            #[trigger] records[i],
            records[i],
        ) by {
            assert(is_sound_record(records[i]));
        }
    } else {
        let last = count - 1;
        lemma_unchanged_progress(records, candidates, replies, now, last);
        let before = progress_after(records, candidates, replies, now, last)->Ok_0;
        let key = candidates[last].source_key;
        assert(!keys.take(last).contains(key)) by {
            if keys.take(last).contains(key) {
                let k = choose|k: int| 0 <= k < last && keys.take(last)[k] == key;
                assert(candidates[k].source_key == key);
            }
        }
        assert(is_unchanged(records, candidates[last]));
        let i = choose|i: int|
            0 <= i < records.len() && (#[trigger] records[i]).source_key == key
                && records[i].fingerprint == candidates[last].fingerprint;
        lemma_position(before.records, key);
        assert(before.records[i] == records[i]);
        assert(position(before.records, key) == Some(i)) by {
            let found = position(before.records, key)->0;
            assert(is_revision_of(before.records[found], records[found]));
            assert(records[found].source_key == key);
        }
        reveal(taken_in);
        reveal(kept_record);
        let progress = progress_after(records, candidates, replies, now, count)->Ok_0;
        assert(keys.take(count) =~= keys.take(last).push(keys[last]));
        assert forall|j: int| 0 <= j < records.len() implies {
            &&& is_revision_of(#[trigger] progress.records[j], records[j])
            &&& !progress.seen.contains(records[j].source_key) ==> progress.records[j]
                == records[j]
        } by {
            assert(progress.seen[last] == key);
            if j != i {
                assert(progress.records[j] == before.records[j]);
                if before.seen.contains(records[j].source_key) {
                    let k = choose|k: int|
                        0 <= k < last && before.seen[k] == records[j].source_key;
                    assert(progress.seen[k] == records[j].source_key);
                }
            }
        }
    }
}

/// Records with room for a revision can be retired.
proof fn lemma_room_to_retire(records: Seq<RecordView>, seen: Seq<Seq<char>>, now: DateTime)
    requires
        forall|i: int|
            0 <= i < records.len() && is_gone(#[trigger] records[i], seen) ==> records[i].sequence
                < u32::MAX,
    ensures
        retired(records, seen, now) is Ok,
    decreases records.len(),
{
    if records.len() > 0 {
        let front = records.drop_last();
        assert forall|i: int| 0 <= i < front.len() && is_gone(
            #[trigger] front[i],
            seen,
        ) implies front[i].sequence < u32::MAX by {
            assert(front[i] == records[i]);
        }
        lemma_room_to_retire(front, seen, now);
        assert(records[records.len() - 1] == records.last());
    }
}

/// Whether an item has a record with its fingerprint.
pub open spec fn is_unchanged(records: Seq<RecordView>, candidate: CandidateView) -> bool {
    exists|i: int|
        0 <= i < records.len() && (#[trigger] records[i]).source_key == candidate.source_key
            && records[i].fingerprint == candidate.fingerprint
}

/// No update is refused for what it retires unless that is more than half of the active events:
/// where the items have their own sources and have not changed, and each record has a revision
/// left, the update is made, whatever the replies.
pub proof fn law_small_removal_is_made(
    state: StateView,
    candidates: Seq<CandidateView>,
    replies: Seq<ReplyView>,
    now: DateTime,
)
    requires
        state_problem(state) is None,
        candidates.len() > 0,
        have_own_sources(candidates, candidates.len() as int),
        forall|at: int|
            0 <= at < candidates.len() ==> is_unchanged(state.records, #[trigger] candidates[at]),
        forall|i: int|
            0 <= i < state.records.len() ==> (#[trigger] state.records[i]).sequence < u32::MAX,
        gone_count(state.records, keys_of(candidates)) * 2 <= active_count(state.records),
    ensures
        reconciled(state, candidates, replies, now) is Ok,
{
    let old = state.records;
    let total = candidates.len() as int;
    let keys = keys_of(candidates);
    law_accepted_states(state);
    assert(forall|at: int|
        0 <= at < candidates.len() ==> is_unchanged(old, #[trigger] candidates[at]));
    lemma_unchanged_progress(old, candidates, replies, now, total);
    assert(keys.take(total) =~= keys);
    let progress = progress_after(old, candidates, replies, now, total)->Ok_0;
    let records = progress.records;
    assert forall|i: int| 0 <= i < old.len() implies is_gone(#[trigger] records[i], keys)
        == is_gone(old[i], keys) by {
        assert(is_revision_of(records[i], old[i]));
    }
    lemma_gone_count(records, old, keys);
    assert forall|i: int| 0 <= i < records.len() && is_gone(
        #[trigger] records[i],
        keys,
    ) implies records[i].sequence < u32::MAX by {
        assert(records[i] == old[i]);
    }
    lemma_room_to_retire(records, keys, now);
    let left = retired(records, keys, now)->Ok_0;
    lemma_retired(records, keys, now, left);
    assert forall|i: int| 0 <= i < left.len() implies is_revision_of(
        #[trigger] left[i],
        old[i],
    ) by {
        assert(is_left_as(records[i], keys, now, left[i]));
        assert(is_revision_of(records[i], old[i]));
    }
    assert(are_sound(left)) by {
        assert forall|i: int, j: int| 0 <= i < j < left.len() implies (
        #[trigger] left[i]).source_key != (#[trigger] left[j]).source_key && left[i].uid
            != left[j].uid by {
            assert(is_revision_of(left[i], old[i]) && is_revision_of(left[j], old[j]));
            assert(old[i].source_key != old[j].source_key);
        }
        assert forall|i: int| 0 <= i < left.len() implies is_sound_record(#[trigger] left[i]) by {
            assert(is_revision_of(left[i], old[i]));
            assert(is_sound_record(old[i]));
        }
    }
    reveal(concluded);
    law_accepted_states(
        StateView {
            records: left,
            generated_at: if progress.changed || gone_count(records, keys) > 0 {
                now
            } else {
                state.generated_at
            },
            ..state
        },
    );
}

/// An update in which a changed item would lose its event is refused.
pub proof fn law_lost_event_is_refused(
    state: StateView,
    candidates: Seq<CandidateView>,
    replies: Seq<ReplyView>,
    now: DateTime,
    i: int,
    at: int,
)
    requires
        0 <= i < state.records.len(),
        0 <= at < candidates.len(),
        state.records[i].source_key == candidates[at].source_key,
        state.records[i].fingerprint != candidates[at].fingerprint,
        state.records[i].event is Some,
        answer(candidates[at], replies[at]) matches Ok(event) && event is None,
    ensures
        reconciled(state, candidates, replies, now) is Err,
{
    match reconciled(state, candidates, replies, now) {
        Ok(next) => {
            law_fate_of_records(state, candidates, replies, now, next);
            let old = state.records[i];
            let total = candidates.len() as int;
            assert(is_fate_of(old, candidates, replies, now, next.records[i]));
            lemma_item_at(candidates, old.source_key, total);
            assert(keys_of(candidates).take(total)[at] == old.source_key);
            assert(item_at(candidates, old.source_key, total) == Some(at));
            reveal(kept_record);
        },
        Err(_) => {},
    }
}

/// Whether two records agree in all but the event and what hangs on it.
pub open spec fn same_but_event(a: RecordView, b: RecordView) -> bool {
    b == RecordView { event: b.event, active: b.active, ..a }
}

/// The replies decide the events alone. Whatever the replies, the same records come out in the
/// same order, with the same sources, identifiers, revision numbers, stamps, texts and links.
pub proof fn law_replies_decide_events_only(
    state: StateView,
    candidates: Seq<CandidateView>,
    replies: Seq<ReplyView>,
    others: Seq<ReplyView>,
    now: DateTime,
    next: StateView,
    other: StateView,
)
    requires
        reconciled(state, candidates, replies, now) == Ok::<_, ErrorView>(next),
        reconciled(state, candidates, others, now) == Ok::<_, ErrorView>(other),
    ensures
        next.records.len() == other.records.len(),
        forall|i: int|
            0 <= i < next.records.len() ==> same_but_event(
                #[trigger] next.records[i],
                other.records[i],
            ),
{
    law_fate_of_records(state, candidates, replies, now, next);
    law_fate_of_records(state, candidates, others, now, other);
    let old = state.records;
    let fresh = new_items(old, candidates, candidates.len() as int);
    assert forall|i: int| 0 <= i < next.records.len() implies same_but_event(
        #[trigger] next.records[i],
        other.records[i],
    ) by {
        if i < old.len() {
            assert(is_fate_of(old[i], candidates, replies, now, next.records[i]));
            assert(is_fate_of(old[i], candidates, others, now, other.records[i]));
            reveal(kept_record);
        } else {
            let k = i - old.len();
            assert(is_made_for(candidates, replies, now, fresh[k], next.records[old.len() + k]));
            assert(is_made_for(candidates, others, now, fresh[k], other.records[old.len() + k]));
        }
    }
}

/// A reply about an item that nobody has to be asked about does not matter.
proof fn lemma_unasked(
    progress: ProgressView,
    candidate: CandidateView,
    reply: ReplyView,
    other: ReplyView,
    now: DateTime,
)
    requires
        !asks(progress, candidate),
    ensures
        taken_in(progress, candidate, reply, now) == taken_in(progress, candidate, other, now),
{
    reveal(taken_in);
    reveal(kept_record);
}

/// Progress depends on the replies that were asked for alone.
proof fn lemma_asked_progress(
    state: StateView,
    candidates: Seq<CandidateView>,
    replies: Seq<ReplyView>,
    others: Seq<ReplyView>,
    now: DateTime,
    count: int,
)
    requires
        state_problem(state) is None,
        0 <= count <= candidates.len(),
        forall|at: int|
            0 <= at < candidates.len() && #[trigger] is_asked(state, candidates, replies, now, at)
                ==> replies[at] == others[at],
    ensures
        progress_after(state.records, candidates, replies, now, count) == progress_after(
            state.records,
            candidates,
            others,
            now,
            count,
        ),
    decreases count,
{
    if count > 0 {
        let last = count - 1;
        lemma_asked_progress(state, candidates, replies, others, now, last);
        match progress_after(state.records, candidates, replies, now, last) {
            Ok(progress) => {
                if asks(progress, candidates[last]) {
                    assert(is_asked(state, candidates, replies, now, last));
                } else {
                    lemma_unasked(progress, candidates[last], replies[last], others[last], now);
                }
            },
            Err(_) => {},
        }
    }
}

/// Only the replies that are asked for matter.
pub proof fn law_only_asked_replies_matter(
    state: StateView,
    candidates: Seq<CandidateView>,
    replies: Seq<ReplyView>,
    others: Seq<ReplyView>,
    now: DateTime,
)
    requires
        forall|at: int|
            0 <= at < candidates.len() && #[trigger] is_asked(state, candidates, replies, now, at)
                ==> replies[at] == others[at],
    ensures
        reconciled(state, candidates, replies, now) == reconciled(state, candidates, others, now),
{
    if state_problem(state) is None {
        lemma_asked_progress(
            state,
            candidates,
            replies,
            others,
            now,
            candidates.len() as int,
        );
    }
}

/// Nobody is asked about an item that has not changed.
pub proof fn law_unchanged_items_are_not_asked(
    state: StateView,
    candidates: Seq<CandidateView>,
    replies: Seq<ReplyView>,
    now: DateTime,
    i: int,
    at: int,
)
    requires
        0 <= i < state.records.len(),
        0 <= at < candidates.len(),
        state.records[i].source_key == candidates[at].source_key,
        state.records[i].fingerprint == candidates[at].fingerprint,
    ensures
        !is_asked(state, candidates, replies, now, at),
{
    let old = state.records;
    let key = candidates[at].source_key;
    if is_asked(state, candidates, replies, now, at) {
        law_accepted_states(state);
        let progress = progress_after(old, candidates, replies, now, at)->Ok_0;
        lemma_progress(old, candidates, replies, now, at, progress);
        lemma_found(old, candidates, replies, now, at, progress.records);
        lemma_position(old, key);
        assert(position(old, key) == Some(i));
    }
}

/// In a reconciliation that succeeds, somebody is asked about exactly the items that are new or
/// have changed.
pub proof fn law_new_and_changed_items_are_asked(
    state: StateView,
    candidates: Seq<CandidateView>,
    replies: Seq<ReplyView>,
    now: DateTime,
    at: int,
)
    requires
        reconciled(state, candidates, replies, now) is Ok,
        0 <= at < candidates.len(),
    ensures
        is_asked(state, candidates, replies, now, at) <==> match position(
            state.records,
            candidates[at].source_key,
        ) {
            None => true,
            Some(i) => state.records[i].fingerprint != candidates[at].fingerprint,
        },
{
    let old = state.records;
    let total = candidates.len() as int;
    law_accepted_states(state);
    if progress_after(old, candidates, replies, now, at) is Err {
        lemma_progress_first(old, candidates, replies, now, at, total);
    }
    if progress_after(old, candidates, replies, now, at + 1) is Err {
        lemma_progress_first(old, candidates, replies, now, at + 1, total);
    }
    let progress = progress_after(old, candidates, replies, now, at)->Ok_0;
    lemma_progress(old, candidates, replies, now, at, progress);
    reveal(taken_in);
    lemma_found(old, candidates, replies, now, at, progress.records);
}

/// A reconciliation fails where a reply that was asked for is missing, is a failure, or does not
/// hold against its item.
pub proof fn law_bad_reply_is_refused(
    state: StateView,
    candidates: Seq<CandidateView>,
    replies: Seq<ReplyView>,
    now: DateTime,
    at: int,
)
    requires
        0 <= at < candidates.len(),
        is_asked(state, candidates, replies, now, at),
        !(replies[at] matches Some(Ok(output)) && model_verdict(candidates[at], output) is Ok),
    ensures
        reconciled(state, candidates, replies, now) is Err,
{
    let old = state.records;
    let progress = progress_after(old, candidates, replies, now, at)->Ok_0;
    assert(answer(candidates[at], replies[at]) is Err) by {
        reveal(answer);
    }
    assert(taken_in(progress, candidates[at], replies[at], now) is Err) by {
        reveal(taken_in);
        reveal(kept_record);
    }
    assert(progress_after(old, candidates, replies, now, at + 1) is Err);
    lemma_progress_first(old, candidates, replies, now, at + 1, candidates.len() as int);
}

/// Records of which none has lost its item stay as they are.
proof fn lemma_nothing_gone(records: Seq<RecordView>, seen: Seq<Seq<char>>, now: DateTime)
    requires
        forall|i: int| 0 <= i < records.len() ==> !is_gone(#[trigger] records[i], seen),
    ensures
        gone_count(records, seen) == 0,
        retired(records, seen, now) == Ok::<_, ErrorView>(records),
    decreases records.len(),
{
    if records.len() > 0 {
        lemma_nothing_gone(records.drop_last(), seen, now);
        assert(records[records.len() - 1] == records.last());
        assert(records.drop_last().push(records.last()) =~= records);
    } else {
        assert(records =~= seq![]);
    }
}

/// A second pass over the same items leaves the records as they are.
proof fn lemma_second_progress(
    records: Seq<RecordView>,
    candidates: Seq<CandidateView>,
    replies: Seq<ReplyView>,
    now: DateTime,
    count: int,
)
    requires
        are_sound(records),
        0 <= count <= candidates.len(),
        have_own_sources(candidates, candidates.len() as int),
        forall|at: int|
            0 <= at < candidates.len() ==> exists|i: int|
                0 <= i < records.len() && (#[trigger] records[i]).source_key == (
                #[trigger] candidates[at]).source_key && records[i].fingerprint
                    == candidates[at].fingerprint && (records[i].active
                    <==> records[i].event is Some),
    ensures
        progress_after(records, candidates, replies, now, count) == Ok::<_, ErrorView>(
            ProgressView { records, changed: false, seen: keys_of(candidates).take(count) },
        ),
    decreases count,
{
    let keys = keys_of(candidates);
    if count == 0 {
        assert(keys.take(0) =~= seq![]);
    } else {
        let last = count - 1;
        lemma_second_progress(records, candidates, replies, now, last);
        let key = candidates[last].source_key;
        assert(!keys.take(last).contains(key)) by {
            if keys.take(last).contains(key) {
                let k = choose|k: int| 0 <= k < last && keys.take(last)[k] == key;
                assert(candidates[k].source_key == key);
            }
        }
        let i = choose|i: int|
            0 <= i < records.len() && (#[trigger] records[i]).source_key
                == candidates[last].source_key && records[i].fingerprint
                == candidates[last].fingerprint && (records[i].active
                <==> records[i].event is Some);
        lemma_position(records, key);
        assert(position(records, key) == Some(i));
        reveal(taken_in);
        reveal(kept_record);
        assert(records.update(i, records[i]) =~= records);
        assert(keys.take(count) =~= keys.take(last).push(keys[last]));
    }
}

/// Reconciling the result with the same items again changes nothing, at whatever moment and with
/// whatever replies.
pub proof fn law_second_pass_changes_nothing(
    state: StateView,
    candidates: Seq<CandidateView>,
    replies: Seq<ReplyView>,
    now: DateTime,
    next: StateView,
    others: Seq<ReplyView>,
    later: DateTime,
)
    requires
        reconciled(state, candidates, replies, now) == Ok::<_, ErrorView>(next),
    ensures
        reconciled(next, candidates, others, later) == Ok::<_, ErrorView>(next),
{
    let total = candidates.len() as int;
    let keys = keys_of(candidates);
    law_fate_of_records(state, candidates, replies, now, next);
    law_result_is_accepted(state, candidates, replies, now, next);
    law_accepted_states(next);
    assert forall|at: int| 0 <= at < candidates.len() implies exists|i: int|
        0 <= i < next.records.len() && (#[trigger] next.records[i]).source_key == (
        #[trigger] candidates[at]).source_key && next.records[i].fingerprint
            == candidates[at].fingerprint && (next.records[i].active
            <==> next.records[i].event is Some) by {
        law_every_item_has_a_record(state, candidates, replies, now, next, at);
    }
    lemma_second_progress(next.records, candidates, others, later, total);
    assert(keys.take(total) =~= keys);
    assert forall|i: int| 0 <= i < next.records.len() implies !is_gone(
        #[trigger] next.records[i],
        keys,
    ) by {
        if next.records[i].active {
            law_active_events_are_scheduled(state, candidates, replies, now, next, i);
            let at = choose|at: int|
                0 <= at < candidates.len() && (#[trigger] candidates[at]).source_key
                    == next.records[i].source_key;
            assert(keys[at] == next.records[i].source_key);
        }
    }
    lemma_nothing_gone(next.records, keys, later);
    reveal(concluded);
}

/// An event of the result is the one that its record had before, or one on a day of the term with
/// links that the record has.
pub proof fn law_events_are_supported(
    state: StateView,
    candidates: Seq<CandidateView>,
    replies: Seq<ReplyView>,
    now: DateTime,
    next: StateView,
    i: int,
)
    requires
        reconciled(state, candidates, replies, now) == Ok::<_, ErrorView>(next),
        0 <= i < next.records.len(),
    ensures
        next.records[i].event matches Some(event) ==> {
            ||| i < state.records.len() && state.records[i].event == Some(event)
            ||| event.deadline.valid() && in_term(event.deadline.day()) && are_link_ids(
                next.records[i].links,
                event.link_ids,
            )
        },
{
    law_fate_of_records(state, candidates, replies, now, next);
    let total = candidates.len() as int;
    reveal(answer);
    reveal(kept_record);
    if next.records[i].event is Some {
        let event = next.records[i].event->0;
        if i < state.records.len() {
            let old = state.records[i];
            assert(is_fate_of(old, candidates, replies, now, next.records[i]));
            match item_at(candidates, old.source_key, total) {
                Some(at) => {
                    if old.fingerprint != candidates[at].fingerprint {
                        law_accepted_event(candidates[at], replies[at]->0->Ok_0, event);
                    }
                },
                None => {},
            }
        } else {
            let at = new_items(state.records, candidates, total)[i - state.records.len()];
            assert(is_made_for(candidates, replies, now, at, next.records[i]));
            law_accepted_event(candidates[at], replies[at]->0->Ok_0, event);
        }
    }
}

/// Where the deadlines of a state can be written, those of the result can, and so it has a
/// calendar.
pub proof fn law_result_has_a_calendar(
    state: StateView,
    candidates: Seq<CandidateView>,
    replies: Seq<ReplyView>,
    now: DateTime,
    next: StateView,
)
    requires
        reconciled(state, candidates, replies, now) == Ok::<_, ErrorView>(next),
        forall|i: int|
            0 <= i < state.records.len() ==> has_writable_deadline(#[trigger] state.records[i]),
    ensures
        forall|i: int|
            0 <= i < next.records.len() ==> has_writable_deadline(#[trigger] next.records[i]),
        calendar_of(next) is Ok,
{
    law_fate_of_records(state, candidates, replies, now, next);
    law_result_is_accepted(state, candidates, replies, now, next);
    let total = candidates.len() as int;
    reveal(answer);
    reveal(kept_record);
    assert forall|i: int| 0 <= i < next.records.len() implies has_writable_deadline(
        #[trigger] next.records[i],
    ) by {
        if next.records[i].event is Some {
            let event = next.records[i].event->0;
            if i < state.records.len() {
                let old = state.records[i];
                assert(has_writable_deadline(old));
                assert(is_fate_of(old, candidates, replies, now, next.records[i]));
                match item_at(candidates, old.source_key, total) {
                    Some(at) => {
                        if old.fingerprint != candidates[at].fingerprint {
                            law_accepted_deadline_is_written(
                                candidates[at],
                                replies[at]->0->Ok_0,
                                event,
                            );
                        }
                    },
                    None => {},
                }
            } else {
                let at = new_items(state.records, candidates, total)[i - state.records.len()];
                assert(is_made_for(candidates, replies, now, at, next.records[i]));
                law_accepted_deadline_is_written(candidates[at], replies[at]->0->Ok_0, event);
            }
        }
    }
    law_good_state_has_a_calendar(next);
}

/// Where all dates and times were ones that the calendar has, they still are.
pub proof fn law_dates_stay_valid(
    state: StateView,
    candidates: Seq<CandidateView>,
    replies: Seq<ReplyView>,
    now: DateTime,
    next: StateView,
)
    requires
        reconciled(state, candidates, replies, now) == Ok::<_, ErrorView>(next),
        state.dated(),
        now.valid(),
    ensures
        next.dated(),
{
    law_fate_of_records(state, candidates, replies, now, next);
    let old = state.records;
    let total = candidates.len() as int;
    assert forall|i: int| 0 <= i < next.records.len() implies (#[trigger] next.records[i]).dated() by {
        law_events_are_supported(state, candidates, replies, now, next, i);
        if i < old.len() {
            law_identity_and_revision(state, candidates, replies, now, next, i);
            assert(old[i].dated());
        } else {
            let k = i - old.len();
            let at = new_items(old, candidates, total)[k];
            assert(is_made_for(candidates, replies, now, at, next.records[old.len() + k]));
        }
    }
}

/// A new item gets a record of its own behind those that were there: with its source, fingerprint,
/// text and links, the identifier of its source, the event that its reply is held to be, and no
/// revision yet.
pub proof fn law_new_item_gets_a_record(
    state: StateView,
    candidates: Seq<CandidateView>,
    replies: Seq<ReplyView>,
    now: DateTime,
    next: StateView,
    at: int,
)
    requires
        reconciled(state, candidates, replies, now) == Ok::<_, ErrorView>(next),
        0 <= at < candidates.len(),
        forall|i: int|
            0 <= i < state.records.len() ==> (#[trigger] state.records[i]).source_key
                != candidates[at].source_key,
    ensures
        exists|i: int|
            state.records.len() <= i < next.records.len() && (#[trigger] next.records[i]).source_key
                == candidates[at].source_key && {
                let record = next.records[i];
                &&& record.fingerprint == candidates[at].fingerprint
                &&& record.uid == uid_of(candidates[at].source_key)
                &&& record.source_text == candidates[at].source_text
                &&& record.links == candidates[at].links
                &&& replies[at] matches Some(Ok(output)) && model_verdict(candidates[at], output)
                    == Ok::<_, ErrorView>(record.event)
                &&& record.active <==> record.event is Some
                &&& record.sequence == 0
                &&& record.updated_at == now
            },
{
    law_fate_of_records(state, candidates, replies, now, next);
    let total = candidates.len() as int;
    let key = candidates[at].source_key;
    lemma_position(state.records, key);
    lemma_new_item_listed(state.records, candidates, total, at);
    let fresh = new_items(state.records, candidates, total);
    let k = choose|k: int| 0 <= k < fresh.len() && fresh[k] == at;
    let i = state.records.len() + k;
    assert(is_made_for(candidates, replies, now, fresh[k], next.records[i]));
    reveal(answer);
    assert(next.records[i].source_key == key);
}

/// A record whose item is there and has not changed stays as it is, where it is active exactly if
/// it has an event.
pub proof fn law_unchanged_record_stays(
    state: StateView,
    candidates: Seq<CandidateView>,
    replies: Seq<ReplyView>,
    now: DateTime,
    next: StateView,
    i: int,
    at: int,
)
    requires
        reconciled(state, candidates, replies, now) == Ok::<_, ErrorView>(next),
        0 <= i < state.records.len(),
        0 <= at < candidates.len(),
        state.records[i].source_key == candidates[at].source_key,
        state.records[i].fingerprint == candidates[at].fingerprint,
        state.records[i].active <==> state.records[i].event is Some,
    ensures
        next.records[i] == state.records[i],
{
    law_fate_of_records(state, candidates, replies, now, next);
    let total = candidates.len() as int;
    let old = state.records[i];
    assert(is_fate_of(old, candidates, replies, now, next.records[i]));
    lemma_item_at(candidates, old.source_key, total);
    assert(keys_of(candidates).take(total)[at] == old.source_key);
    let found = item_at(candidates, old.source_key, total)->0;
    assert(found == at);
    reveal(kept_record);
}

/// A changed item that had an event and is held to have none stops the update.
pub proof fn law_event_may_not_be_lost(
    state: StateView,
    candidates: Seq<CandidateView>,
    replies: Seq<ReplyView>,
    now: DateTime,
    i: int,
    at: int,
)
    requires
        0 <= i < state.records.len(),
        0 <= at < candidates.len(),
        state.records[i].source_key == candidates[at].source_key,
        state.records[i].fingerprint != candidates[at].fingerprint,
        state.records[i].event is Some,
        replies[at] matches Some(Ok(output)) && model_verdict(candidates[at], output) == Ok::<
            Option<EventView>,
            ErrorView,
        >(None),
    ensures
        reconciled(state, candidates, replies, now) is Err,
{
    reveal(answer);
    law_lost_event_is_refused(state, candidates, replies, now, i, at);
}

/// Whether a reply will do for an item: it is not needed, since the item has a record with its
/// fingerprint, or it is held to be right and does not take away an event.
pub open spec fn will_do(
    records: Seq<RecordView>,
    candidate: CandidateView,
    reply: ReplyView,
) -> bool {
    is_unchanged(records, candidate) || {
        &&& reply matches Some(Ok(output)) && model_verdict(candidate, output) is Ok
        &&& forall|i: int|
            0 <= i < records.len() && (#[trigger] records[i]).source_key == candidate.source_key
                && records[i].event is Some ==> (reply matches Some(Ok(output)) && model_verdict(
                candidate,
                output,
            ) matches Ok(Some(_)))
    }
}

/// Items whose replies will do are taken in.
proof fn lemma_good_progress(
    records: Seq<RecordView>,
    candidates: Seq<CandidateView>,
    replies: Seq<ReplyView>,
    now: DateTime,
    count: int,
)
    requires
        are_sound(records),
        0 <= count <= candidates.len(),
        have_own_sources(candidates, candidates.len() as int),
        forall|at: int|
            0 <= at < candidates.len() ==> will_do(
                records,
                #[trigger] candidates[at],
                replies[at],
            ),
        forall|i: int| 0 <= i < records.len() ==> (#[trigger] records[i]).sequence < u32::MAX,
    ensures
        progress_after(records, candidates, replies, now, count) is Ok,
    decreases count,
{
    if count > 0 {
        let last = count - 1;
        lemma_good_progress(records, candidates, replies, now, last);
        let before = progress_after(records, candidates, replies, now, last)->Ok_0;
        lemma_progress(records, candidates, replies, now, last, before);
        let keys = keys_of(candidates);
        let key = candidates[last].source_key;
        assert(!keys.take(last).contains(key)) by {
            if keys.take(last).contains(key) {
                let k = choose|k: int| 0 <= k < last && keys.take(last)[k] == key;
                assert(candidates[k].source_key == key);
            }
        }
        lemma_found(records, candidates, replies, now, last, before.records);
        lemma_position(records, key);
        assert(will_do(records, candidates[last], replies[last]));
        reveal(taken_in);
        reveal(kept_record);
        reveal(answer);
        match position(records, key) {
            Some(found) => {
                if is_unchanged(records, candidates[last]) {
                    let i = choose|i: int|
                        0 <= i < records.len() && (#[trigger] records[i]).source_key == key
                            && records[i].fingerprint == candidates[last].fingerprint;
                    assert(i == found) by {
                        if found < i {
                            assert(records[found].source_key != records[i].source_key);
                        }
                    }
                }
                assert(before.records[found] == records[found]);
            },
            None => {
                if is_unchanged(records, candidates[last]) {
                    let i = choose|i: int|
                        0 <= i < records.len() && (#[trigger] records[i]).source_key == key
                            && records[i].fingerprint == candidates[last].fingerprint;
                    assert(records[i].source_key != key);
                }
            },
        }
    }
}

/// Whether identifiers tell apart the sources of records and items.
pub open spec fn identifiers_differ(records: Seq<RecordView>, candidates: Seq<CandidateView>) -> bool {
    &&& forall|i: int, at: int|
        0 <= i < records.len() && 0 <= at < candidates.len() && (#[trigger] records[i]).source_key
            != (#[trigger] candidates[at]).source_key ==> records[i].uid != uid_of(
            candidates[at].source_key,
        )
    &&& forall|at: int, other: int|
        0 <= at < candidates.len() && 0 <= other < candidates.len() && (
        #[trigger] candidates[at]).source_key != (#[trigger] candidates[other]).source_key
            ==> uid_of(candidates[at].source_key) != uid_of(candidates[other].source_key)
}

/// A good update is made: where the state keeps the rules, there are items, each with a source and
/// an identifier of its own and with links that lead to the web, the reply about each will do, each
/// record has a revision left, and no more than half of the active events go.
pub proof fn law_good_update_is_made(
    state: StateView,
    candidates: Seq<CandidateView>,
    replies: Seq<ReplyView>,
    now: DateTime,
)
    requires
        state_problem(state) is None,
        candidates.len() > 0,
        have_own_sources(candidates, candidates.len() as int),
        identifiers_differ(state.records, candidates),
        forall|at: int, k: int|
            0 <= at < candidates.len() && 0 <= k < candidates[at].links.len() ==> link_problem(
                #[trigger] candidates[at].links[k],
            ) is None,
        forall|at: int|
            0 <= at < candidates.len() ==> will_do(
                state.records,
                #[trigger] candidates[at],
                replies[at],
            ),
        forall|i: int|
            0 <= i < state.records.len() ==> (#[trigger] state.records[i]).sequence < u32::MAX,
        gone_count(state.records, keys_of(candidates)) * 2 <= active_count(state.records),
    ensures
        reconciled(state, candidates, replies, now) is Ok,
{
    let old = state.records;
    let total = candidates.len() as int;
    let keys = keys_of(candidates);
    law_accepted_states(state);
    lemma_good_progress(old, candidates, replies, now, total);
    let progress = progress_after(old, candidates, replies, now, total)->Ok_0;
    let records = progress.records;
    lemma_progress(old, candidates, replies, now, total, progress);
    assert(keys.take(total) =~= keys);
    let fresh = new_items(old, candidates, total);
    lemma_new_items(old, candidates, total);
    assert forall|i: int| 0 <= i < old.len() implies is_gone(#[trigger] records[i], keys)
        == is_gone(old[i], keys) && is_sound_record(records[i]) && records[i].source_key
        == old[i].source_key && records[i].uid == old[i].uid && (is_gone(records[i], keys)
        ==> records[i] == old[i]) by {
        let item = item_at(candidates, old[i].source_key, total);
        assert(is_kept_as(old[i], candidates, replies, now, item, records[i]));
        assert(is_sound_record(old[i]));
        lemma_item_at(candidates, old[i].source_key, total);
        if item is Some {
            lemma_kept(old[i], candidates[item->0], replies[item->0], now);
            assert(keys.take(total)[item->0] == old[i].source_key);
            reveal(kept_record);
            let links = candidates[item->0].links;
            assert forall|k: int| 0 <= k < links.len() implies link_problem(#[trigger] links[k])
                is None by {
                assert(link_problem(candidates[item->0].links[k]) is None);
            }
        }
    }
    assert forall|i: int| old.len() <= i < records.len() implies !is_gone(#[trigger] records[i], keys)
        && is_sound_record(records[i]) && records[i].source_key == candidates[fresh[i
        - old.len()]].source_key && records[i].uid == uid_of(records[i].source_key) by {
        let k = i - old.len();
        assert(is_made_for(candidates, replies, now, fresh[k], records[old.len() + k]));
        assert(keys[fresh[k]] == records[i].source_key);
        let links = candidates[fresh[k]].links;
        assert forall|m: int| 0 <= m < links.len() implies link_problem(#[trigger] links[m])
            is None by {
            assert(link_problem(candidates[fresh[k]].links[m]) is None);
        }
    }
    lemma_gone_count(records, old, keys);
    lemma_room_to_retire(records, keys, now);
    let left = retired(records, keys, now)->Ok_0;
    lemma_retired(records, keys, now, left);
    assert(has_own_identities(records)) by {
        assert forall|i: int, j: int| 0 <= i < j < records.len() implies (
        #[trigger] records[i]).source_key != (#[trigger] records[j]).source_key && records[i].uid
            != records[j].uid by {
            if j < old.len() {
                assert(old[i].source_key != old[j].source_key);
            } else {
                let b = fresh[j - old.len()];
                assert(records[j].source_key == candidates[b].source_key);
                lemma_position(old, candidates[b].source_key);
                if i < old.len() {
                    assert(old[i].source_key != candidates[b].source_key);
                } else {
                    let a = fresh[i - old.len()];
                    lemma_new_items_rise(old, candidates, total, i - old.len(), j - old.len());
                    assert(candidates[a].source_key != candidates[b].source_key);
                }
            }
        }
    }
    assert(are_sound(left)) by {
        assert forall|i: int| 0 <= i < left.len() implies is_sound_record(#[trigger] left[i])
            && left[i].source_key == records[i].source_key && left[i].uid == records[i].uid by {
            assert(is_left_as(records[i], keys, now, left[i]));
            assert(is_sound_record(records[i]));
        }
        assert forall|i: int, j: int| 0 <= i < j < left.len() implies (
        #[trigger] left[i]).source_key != (#[trigger] left[j]).source_key && left[i].uid
            != left[j].uid by {
            assert(records[i].source_key != records[j].source_key);
        }
    }
    reveal(concluded);
    law_accepted_states(
        StateView {
            records: left,
            generated_at: if progress.changed || gone_count(records, keys) > 0 {
                now
            } else {
                state.generated_at
            },
            ..state
        },
    );
}

/// New items are listed in the order of the schedule.
proof fn lemma_new_items_rise(
    records: Seq<RecordView>,
    candidates: Seq<CandidateView>,
    count: int,
    i: int,
    j: int,
)
    requires
        0 <= count <= candidates.len(),
        0 <= i < j < new_items(records, candidates, count).len(),
    ensures
        0 <= new_items(records, candidates, count)[i] < new_items(records, candidates, count)[j]
            < count,
    decreases count,
{
    if count > 0 {
        let before = new_items(records, candidates, count - 1);
        lemma_new_items(records, candidates, count - 1);
        if j < before.len() {
            lemma_new_items_rise(records, candidates, count - 1, i, j);
        } else {
            assert(new_items(records, candidates, count)[i] == before[i]);
        }
    }
}

} // verus!
