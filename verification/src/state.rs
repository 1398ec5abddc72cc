//! The rules that a stored state keeps.

use vstd::prelude::*;

use crate::clock::DateTime;
use crate::digest::{is_uid, sha256_hex, uid_for, uid_of};
use crate::model::{
    check_view, plain_failure, Error, ErrorKind, ErrorView, LinkView, Record, RecordView,
    SourceLink, State, StateView, SCHEDULE_URL, SCHEMA_VERSION,
};
use crate::text::{same_text, views};
use crate::web::{address_of, has_web_scheme, is_web_scheme, parse_address};

verus! {

/// What is wrong with a stored link.
pub open spec fn link_problem(link: LinkView) -> Option<ErrorView> {
    match address_of(link.url) {
        None => Some(plain_failure(ErrorKind::InvalidStateUrl)),
        Some(address) => if is_web_scheme(address.0) {
            None
        } else {
            Some(plain_failure(ErrorKind::UnsupportedStateUrl))
        },
    }
}

/// What is wrong with the first links of a list: the first failure among them.
pub open spec fn links_problem(links: Seq<LinkView>, count: int) -> Option<ErrorView>
    decreases count,
{
    if count <= 0 {
        None
    } else {
        match links_problem(links, count - 1) {
            Some(error) => Some(error),
            None => link_problem(links[count - 1]),
        }
    }
}

/// Whether an earlier record has the source or the identifier of a record.
pub open spec fn is_repeated(records: Seq<RecordView>, at: int) -> bool {
    exists|i: int|
        0 <= i < at && ((#[trigger] records[i]).source_key == records[at].source_key
            || records[i].uid == records[at].uid)
}

/// What is wrong with a record of a list.
pub open spec fn record_problem(records: Seq<RecordView>, at: int) -> Option<ErrorView> {
    let record = records[at];
    if is_repeated(records, at) {
        Some(plain_failure(ErrorKind::DuplicateIdentities))
    } else if record.uid != uid_of(record.source_key) {
        Some(plain_failure(ErrorKind::InvalidUid))
    } else if record.active && record.event is None {
        Some(plain_failure(ErrorKind::ActiveWithoutEvent))
    } else {
        links_problem(record.links, record.links.len() as int)
    }
}

/// What is wrong with the first records of a list: the first failure among them.
pub open spec fn records_problem(records: Seq<RecordView>, count: int) -> Option<ErrorView>
    decreases count,
{
    if count <= 0 {
        None
    } else {
        match records_problem(records, count - 1) {
            Some(error) => Some(error),
            None => record_problem(records, count - 1),
        }
    }
}

/// What is wrong with a state.
pub open spec fn state_problem(state: StateView) -> Option<ErrorView> {
    if state.version != SCHEMA_VERSION || state.schedule_url != SCHEDULE_URL@ {
        Some(plain_failure(ErrorKind::ForeignState))
    } else {
        records_problem(state.records, state.records.len() as int)
    }
}

/// Whether the identifiers of records have their shape.
pub open spec fn have_uids(records: Seq<RecordView>) -> bool {
    forall|i: int| 0 <= i < records.len() ==> is_uid((#[trigger] records[i]).uid)
}

/// A failure among the first records is the failure of all of them.
proof fn lemma_records_first(records: Seq<RecordView>, count: int, total: int)
    requires
        count <= total,
        records_problem(records, count) is Some,
    ensures
        records_problem(records, total) == records_problem(records, count),
    decreases total - count,
{
    if count < total {
        lemma_records_first(records, count, total - 1);
    }
}

/// A failure among the first links is the failure of all of them.
proof fn lemma_links_first(links: Seq<LinkView>, count: int, total: int)
    requires
        count <= total,
        links_problem(links, count) is Some,
    ensures
        links_problem(links, total) == links_problem(links, count),
    decreases total - count,
{
    if count < total {
        lemma_links_first(links, count, total - 1);
    }
}

/// Checks the links of a record.
fn validate_links(links: &Vec<SourceLink>) -> (r: Result<(), Error>)
    ensures
        check_view(r) == links_problem(views(links@), links@.len() as int),
{
    let ghost all = views(links@);
    let mut i: usize = 0;
    while i < links.len()
        invariant
            all == views(links@),
            i <= links@.len(),
            links_problem(all, i as int) is None,
        decreases links@.len() - i,
    {
        assert(all[i as int] == links@[i as int]@);
        match parse_address(links[i].url.as_str()) {
            None => {
                proof {
                    lemma_links_first(all, i + 1, links@.len() as int);
                }
                return Err(Error::plain(ErrorKind::InvalidStateUrl));
            },
            Some(address) => {
                if !has_web_scheme(address.scheme.as_str()) {
                    proof {
                        lemma_links_first(all, i + 1, links@.len() as int);
                    }
                    return Err(Error::plain(ErrorKind::UnsupportedStateUrl));
                }
            },
        }
        i = i + 1;
    }
    Ok(())
}

/// Looks for the source or the identifier of a record among those before it.
fn repeats(records: &Vec<Record>, at: usize) -> (r: bool)
    requires
        at < records@.len(),
    ensures
        r == is_repeated(views(records@), at as int),
{
    let ghost all = views(records@);
    let mut i: usize = 0;
    while i < at
        invariant
            all == views(records@),
            i <= at < records@.len(),
            forall|k: int|
                0 <= k < i ==> (#[trigger] all[k]).source_key != all[at as int].source_key
                    && all[k].uid != all[at as int].uid,
        decreases at - i,
    {
        assert(all[i as int] == records@[i as int]@);
        assert(all[at as int] == records@[at as int]@);
        if records[i].source_key == records[at].source_key || records[i].uid == records[at].uid {
            return true;
        }
        i = i + 1;
    }
    false
}

/// Checks one record of a list.
fn validate_record(records: &Vec<Record>, at: usize) -> (r: Result<(), Error>)
    requires
        at < records@.len(),
    ensures
        check_view(r) == record_problem(views(records@), at as int),
        r is Ok ==> is_uid(views(records@)[at as int].uid),
{
    assert(views(records@)[at as int] == records@[at as int]@);
    if repeats(records, at) {
        return Err(Error::plain(ErrorKind::DuplicateIdentities));
    }
    let record: &Record = &records[at];
    let uid: String = uid_for(record.source_key.as_str());
    if record.uid != uid {
        return Err(Error::plain(ErrorKind::InvalidUid));
    }
    if record.active && record.event.is_none() {
        return Err(Error::plain(ErrorKind::ActiveWithoutEvent));
    }
    validate_links(&record.links)
}

/// Checks the records of a state.
fn validate_records(records: &Vec<Record>) -> (r: Result<(), Error>)
    ensures
        check_view(r) == records_problem(views(records@), records@.len() as int),
        r is Ok ==> have_uids(views(records@)),
{
    let mut i: usize = 0;
    while i < records.len()
        invariant
            i <= records@.len(),
            records_problem(views(records@), i as int) is None,
            forall|k: int| 0 <= k < i ==> is_uid((#[trigger] views(records@)[k]).uid),
        decreases records@.len() - i,
    {
        match validate_record(records, i) {
            Err(error) => {
                proof {
                    lemma_records_first(views(records@), i + 1, records@.len() as int);
                }
                return Err(error);
            },
            Ok(_) => {},
        }
        i = i + 1;
    }
    Ok(())
}

/// Checks a state. The identifiers of a state without a failure have their shape.
pub fn validate_state(state: &State) -> (r: Result<(), Error>)
    ensures
        check_view(r) == state_problem(state@),
        r is Ok ==> have_uids(state@.records),
{
    if state.version != SCHEMA_VERSION || !same_text(state.schedule_url.as_str(), SCHEDULE_URL) {
        return Err(Error::plain(ErrorKind::ForeignState));
    }
    validate_records(&state.records)
}

/// Whether a record keeps the rules that concern it alone: its identifier is that of its source,
/// it has an event where it is active, and its links lead to the web.
pub open spec fn is_sound_record(record: RecordView) -> bool {
    &&& record.uid == uid_of(record.source_key)
    &&& record.active ==> record.event is Some
    &&& forall|i: int|
        0 <= i < record.links.len() ==> link_problem(#[trigger] record.links[i]) is None
}

/// Whether no two records share a source or an identifier.
pub open spec fn has_own_identities(records: Seq<RecordView>) -> bool {
    forall|i: int, j: int|
        0 <= i < j < records.len() ==> (#[trigger] records[i]).source_key != (
        #[trigger] records[j]).source_key && records[i].uid != records[j].uid
}

/// Whether a list of records keeps the rules.
pub open spec fn are_sound(records: Seq<RecordView>) -> bool {
    &&& has_own_identities(records)
    &&& forall|i: int| 0 <= i < records.len() ==> is_sound_record(#[trigger] records[i])
}

/// Links without a failure among the first ones are sound one by one.
proof fn lemma_links_sound(links: Seq<LinkView>, count: int)
    requires
        0 <= count <= links.len(),
    ensures
        links_problem(links, count) is None <==> (forall|i: int|
            0 <= i < count ==> link_problem(#[trigger] links[i]) is None),
    decreases count,
{
    if count > 0 {
        lemma_links_sound(links, count - 1);
    }
}

/// Records without a failure among the first ones are sound and have their own identities.
proof fn lemma_records_sound(records: Seq<RecordView>, count: int)
    requires
        0 <= count <= records.len(),
    ensures
        records_problem(records, count) is None <==> are_sound(records.take(count)),
    decreases count,
{
    let front = records.take(count);
    if count > 0 {
        let last = count - 1;
        lemma_records_sound(records, last);
        lemma_links_sound(records[last].links, records[last].links.len() as int);
        let before = records.take(last);
        assert(forall|i: int| 0 <= i < last ==> front[i] == #[trigger] before[i]);
        assert(front[last] == records[last]);
        if records_problem(records, count) is None {
            assert forall|i: int, j: int| 0 <= i < j < front.len() implies (
            #[trigger] front[i]).source_key != (#[trigger] front[j]).source_key && front[i].uid
                != front[j].uid by {
                if j == last {
                    assert(front[i] == records[i]);
                    assert(!is_repeated(records, last));
                } else {
                    assert(front[i] == before[i] && front[j] == before[j]);
                }
            }
            assert forall|i: int| 0 <= i < front.len() implies is_sound_record(
                #[trigger] front[i],
            ) by {
                if i < last {
                    assert(front[i] == before[i]);
                }
            }
        }
        if are_sound(front) {
            assert forall|i: int, j: int| 0 <= i < j < before.len() implies (
            #[trigger] before[i]).source_key != (#[trigger] before[j]).source_key && before[i].uid
                != before[j].uid by {
                assert(front[i] == before[i] && front[j] == before[j]);
            }
            assert forall|i: int| 0 <= i < before.len() implies is_sound_record(
                #[trigger] before[i],
            ) by {
                assert(front[i] == before[i]);
            }
            assert(is_sound_record(front[last]));
            assert forall|i: int| 0 <= i < last implies (#[trigger] records[i]).source_key
                != records[last].source_key && records[i].uid != records[last].uid by {
                assert(front[i] == records[i]);
                assert(front[i].source_key != front[last].source_key);
            }
        }
    }
}

/// A state is accepted exactly where it has the version and the schedule of this feed, no two
/// records share a source or an identifier, each identifier is made from the source, each active
/// record has an event, and every link leads to the web.
pub proof fn law_accepted_states(state: StateView)
    ensures
        state_problem(state) is None <==> {
            &&& state.version == 1
            &&& state.schedule_url == "https://data385.netlify.app/schedule"@
            &&& are_sound(state.records)
        },
{
    lemma_records_sound(state.records, state.records.len() as int);
    assert(state.records.take(state.records.len() as int) =~= state.records);
}

/// A state without records is accepted.
pub proof fn law_empty_state_is_accepted(now: DateTime)
    ensures
        state_problem(
            StateView {
                version: SCHEMA_VERSION,
                schedule_url: SCHEDULE_URL@,
                generated_at: now,
                records: seq![],
            },
        ) is None,
{
}

/// A stored link is right exactly where its text is an address of the web.
pub proof fn law_stored_link(link: LinkView)
    ensures
        link_problem(link) is None <==> (address_of(link.url) matches Some(address) && (address.0
            == "http"@ || address.0 == "https"@)),
{
}

/// A state is refused for the first thing that is wrong with it: a foreign version or schedule,
/// else what is wrong with the first bad record, however good those before it are.
pub proof fn law_first_bad_record(state: StateView, at: int)
    requires
        0 <= at < state.records.len(),
        state.version == 1,
        state.schedule_url == "https://data385.netlify.app/schedule"@,
        are_sound(state.records.take(at)),
    ensures
        (exists|i: int|
            0 <= i < at && ((#[trigger] state.records[i]).source_key
                == state.records[at].source_key || state.records[i].uid == state.records[at].uid))
            ==> (state_problem(state) matches Some(error) && error.kind
            == ErrorKind::DuplicateIdentities),
        (forall|i: int|
            0 <= i < at ==> (#[trigger] state.records[i]).source_key
                != state.records[at].source_key && state.records[i].uid != state.records[at].uid)
            ==> {
            let record = state.records[at];
            &&& record.uid != uid_of(record.source_key) ==> (state_problem(state) matches Some(
                error,
            ) && error.kind == ErrorKind::InvalidUid)
            &&& record.uid == uid_of(record.source_key) && record.active && record.event is None
                ==> (state_problem(state) matches Some(error) && error.kind
                == ErrorKind::ActiveWithoutEvent)
        },
{
    lemma_records_sound(state.records, at);
    if record_problem(state.records, at) is Some {
        assert(records_problem(state.records, at + 1) == record_problem(state.records, at));
        lemma_records_first(state.records, at + 1, state.records.len() as int);
    }
}

/// A state is accepted exactly where it has version one and this schedule, no two records share a
/// source or an identifier, each identifier is made from the source of its record, each active
/// record has an event, and every link is an address of the web.
pub proof fn law_rules_of_states(state: StateView)
    ensures
        state_problem(state) is None <==> {
            &&& state.version == 1
            &&& state.schedule_url == "https://data385.netlify.app/schedule"@
            &&& forall|i: int, j: int|
                0 <= i < j < state.records.len() ==> (#[trigger] state.records[i]).source_key != (
                #[trigger] state.records[j]).source_key && state.records[i].uid
                    != state.records[j].uid
            &&& forall|i: int|
                0 <= i < state.records.len() ==> (#[trigger] state.records[i]).uid == sha256_hex(
                    "chronatello-uid-v1\n"@ + state.records[i].source_key,
                ) + "@chronatello.lomzem.github.io"@
            &&& forall|i: int|
                0 <= i < state.records.len() && (#[trigger] state.records[i]).active
                    ==> state.records[i].event is Some
            &&& forall|i: int, k: int|
                0 <= i < state.records.len() && 0 <= k < state.records[i].links.len() ==> (
                address_of((#[trigger] state.records[i].links[k]).url) matches Some(address) && (
                address.0 == "http"@ || address.0 == "https"@))
        },
{
    law_accepted_states(state);
    assert forall|i: int, k: int|
        0 <= i < state.records.len() && 0 <= k < state.records[i].links.len() implies (address_of(
        (#[trigger] state.records[i].links[k]).url,
    ) matches Some(address) && (address.0 == "http"@ || address.0 == "https"@)) == (link_problem(
        state.records[i].links[k],
    ) is None) by {
        law_stored_link(state.records[i].links[k]);
    }
    if are_sound(state.records) {
        assert forall|i: int| 0 <= i < state.records.len() implies is_sound_record(
            #[trigger] state.records[i],
        ) by {}
        assert forall|i: int, k: int|
            0 <= i < state.records.len() && 0 <= k < state.records[i].links.len() implies (
        address_of((#[trigger] state.records[i].links[k]).url) matches Some(address) && (address.0
            == "http"@ || address.0 == "https"@)) by {
            assert(is_sound_record(state.records[i]));
        }
    } else {
        if forall|i: int, j: int|
            0 <= i < j < state.records.len() ==> (#[trigger] state.records[i]).source_key != (
            #[trigger] state.records[j]).source_key && state.records[i].uid
                != state.records[j].uid {
            let i = choose|i: int|
                0 <= i < state.records.len() && !is_sound_record(#[trigger] state.records[i]);
            let record = state.records[i];
            if record.uid == uid_of(record.source_key) && (record.active ==> record.event is Some) {
                let k = choose|k: int|
                    0 <= k < record.links.len() && link_problem(#[trigger] record.links[k]) is Some;
                assert(link_problem(state.records[i].links[k]) is Some);
            }
        }
    }
}

/// A state of another version or another schedule is foreign. A stored address that is none is told
/// from one that leads elsewhere than to the web.
pub proof fn law_kinds_of_bad_states(state: StateView, link: LinkView)
    ensures
        state.version != 1 || state.schedule_url != SCHEDULE_URL@ ==> (state_problem(
            state,
        ) matches Some(error) && error.kind == ErrorKind::ForeignState),
        address_of(link.url) is None ==> (link_problem(link) matches Some(error) && error.kind
            == ErrorKind::InvalidStateUrl),
        (address_of(link.url) matches Some(address) && address.0 != "http"@ && address.0 != "https"@)
            ==> (link_problem(link) matches Some(error) && error.kind
            == ErrorKind::UnsupportedStateUrl),
{
}

} // verus!
