//! Identities that are given to schedule texts by hand.

use vstd::prelude::*;

use crate::json::{json_entries, pair_views, string_entries};
use crate::model::{plain_failure, result_view, Error, ErrorKind, ErrorView};
use crate::text::{is_space, normalize, normalized, opt_view, same_text};

verus! {

/// The map that entries make, a later one in place of an earlier one with the same key.
pub open spec fn entries_map(entries: Seq<(Seq<char>, Seq<char>)>) -> Map<Seq<char>, Seq<char>>
    decreases entries.len(),
{
    if entries.len() == 0 {
        Map::empty()
    } else {
        entries_map(entries.drop_last()).insert(entries.last().0, entries.last().1)
    }
}

/// A map from schedule texts to the identities that they are given.
#[derive(Clone, Debug)]
pub struct Overrides {
    entries: Vec<(String, String)>,
}

impl View for Overrides {
    type V = Map<Seq<char>, Seq<char>>;

    closed spec fn view(&self) -> Map<Seq<char>, Seq<char>> {
        entries_map(pair_views(self.entries@))
    }
}

/// What a map holds for a key.
pub open spec fn looked_up(map: Map<Seq<char>, Seq<char>>, key: Seq<char>) -> Option<Seq<char>> {
    if map.dom().contains(key) {
        Some(map[key])
    } else {
        None
    }
}

impl Overrides {
    /// No identities.
    pub fn new() -> (r: Overrides)
        ensures
            r@ == Map::<Seq<char>, Seq<char>>::empty(),
    {
        let r = Overrides { entries: Vec::new() };
        assert(pair_views(r.entries@) =~= seq![]);
        r
    }

    /// Gives an identity to a text.
    pub fn insert(&mut self, source: String, identity: String)
        ensures
            final(self)@ == old(self)@.insert(source@, identity@),
    {
        let ghost before = pair_views(self.entries@);
        self.entries.push((source, identity));
        let ghost after = pair_views(self.entries@);
        assert(after.drop_last() =~= before);
    }

    /// Looks up the identity of a text.
    pub fn get(&self, source: &str) -> (r: Option<String>)
        ensures
            opt_view(r) == looked_up(self@, source@),
    {
        let ghost all = pair_views(self.entries@);
        let mut count: usize = self.entries.len();
        assert(all.take(count as int) =~= all);
        while count > 0
            invariant
                count <= self.entries@.len(),
                all == pair_views(self.entries@),
                looked_up(self@, source@) == looked_up(
                    entries_map(all.take(count as int)),
                    source@,
                ),
            decreases count,
        {
            let entry: &(String, String) = &self.entries[count - 1];
            assert(all.take(count as int).drop_last() =~= all.take(count - 1));
            assert(all.take(count as int).last() == (entry.0@, entry.1@));
            if same_text(entry.0.as_str(), source) {
                return Some(entry.1.clone());
            }
            count = count - 1;
        }
        None
    }
}

/// Whether a text and an identity both hold more than white space.
pub open spec fn is_usable(entry: (Seq<char>, Seq<char>)) -> bool {
    normalized(entry.0).len() > 0 && normalized(entry.1).len() > 0
}

/// The map of entries that are all usable.
pub open spec fn usable_map(entries: Seq<(Seq<char>, Seq<char>)>) -> Result<
    Map<Seq<char>, Seq<char>>,
    ErrorView,
> {
    if forall|i: int| 0 <= i < entries.len() ==> is_usable(#[trigger] entries[i]) {
        Ok(entries_map(entries))
    } else {
        Err(plain_failure(ErrorKind::EmptyOverride))
    }
}

/// Makes a map of entries that are all usable.
pub fn overrides_from_entries(entries: Vec<(String, String)>) -> (r: Result<Overrides, Error>)
    ensures
        result_view(r) == usable_map(pair_views(entries@)),
{
    let ghost all = pair_views(entries@);
    let mut i: usize = 0;
    while i < entries.len()
        invariant
            all == pair_views(entries@),
            i <= entries@.len(),
            forall|k: int| 0 <= k < i ==> is_usable(#[trigger] all[k]),
        decreases entries@.len() - i,
    {
        let source: String = normalize(entries[i].0.as_str());
        let identity: String = normalize(entries[i].1.as_str());
        assert(all[i as int] == (entries@[i as int].0@, entries@[i as int].1@));
        if source.as_str().is_empty() || identity.as_str().is_empty() {
            assert(!is_usable(all[i as int]));
            return Err(Error::plain(ErrorKind::EmptyOverride));
        }
        i = i + 1;
    }
    Ok(Overrides { entries })
}

/// The map that a JSON document of identities holds.
pub open spec fn overrides_in(document: Seq<u8>) -> Result<Map<Seq<char>, Seq<char>>, ErrorView> {
    match json_entries(document) {
        Err(_) => Err(plain_failure(ErrorKind::NotJson)),
        Ok(entries) => usable_map(entries),
    }
}

/// Reads a JSON document of identities.
pub fn parse_overrides(document: &[u8]) -> (r: Result<Overrides, Error>)
    ensures
        result_view(r) == overrides_in(document@),
{
    match string_entries(document) {
        Err(_) => Err(Error::plain(ErrorKind::NotJson)),
        Ok(entries) => overrides_from_entries(entries),
    }
}

/// Of entries with one key the last counts, and a key without an entry has nothing.
pub proof fn law_last_entry_counts(
    entries: Seq<(Seq<char>, Seq<char>)>,
    key: Seq<char>,
    identity: Seq<char>,
    other: Seq<char>,
)
    ensures
        looked_up(entries_map(seq![]), key) is None,
        looked_up(entries_map(entries.push((key, identity))), key) == Some(identity),
        other != key ==> looked_up(entries_map(entries.push((key, identity))), other) == looked_up(
            entries_map(entries),
            other,
        ),
{
    assert(entries.push((key, identity)).drop_last() =~= entries);
}

/// Whether a text has a character that is not white space.
pub open spec fn says_something(text: Seq<char>) -> bool {
    exists|k: int| 0 <= k < text.len() && !is_space(#[trigger] text[k])
}

/// Entries make a map exactly where each text and each identity has a character that is not white
/// space. One that has none spoils all.
pub proof fn law_usable_entries(entries: Seq<(Seq<char>, Seq<char>)>)
    ensures
        usable_map(entries) is Ok <==> forall|i: int|
            0 <= i < entries.len() ==> says_something((#[trigger] entries[i]).0) && says_something(
                entries[i].1,
            ),
        usable_map(entries) matches Ok(map) ==> map == entries_map(entries),
        usable_map(entries) matches Err(error) ==> error.kind == ErrorKind::EmptyOverride,
{
    assert forall|i: int| 0 <= i < entries.len() implies is_usable(#[trigger] entries[i]) == (
    says_something(entries[i].0) && says_something(entries[i].1)) by {
        lemma_nothing_but_space(entries[i].0);
        lemma_nothing_but_space(entries[i].1);
    }
}

/// What is left of a text once its white space is reduced is nothing exactly where the text has
/// nothing else.
pub proof fn lemma_nothing_but_space(text: Seq<char>)
    ensures
        normalized(text).len() > 0 <==> says_something(text),
    decreases text.len(),
{
    if text.len() > 0 {
        let front = text.drop_last();
        lemma_nothing_but_space(front);
        assert(text[text.len() - 1] == text.last());
        if normalized(front).len() > 0 {
            let k = choose|k: int| 0 <= k < front.len() && !is_space(#[trigger] front[k]);
            assert(text[k] == front[k]);
        }
        if exists|k: int| 0 <= k < text.len() && !is_space(#[trigger] text[k]) {
            let k = choose|k: int| 0 <= k < text.len() && !is_space(#[trigger] text[k]);
            if k < front.len() {
                assert(front[k] == text[k]);
            }
        }
    }
}

/// A document that is no JSON object of texts makes no map, and one that is makes that of its
/// entries.
pub proof fn law_document(document: Seq<u8>)
    ensures
        json_entries(document) is Err ==> overrides_in(document) is Err,
        json_entries(document) matches Ok(entries) ==> overrides_in(document) == usable_map(
            entries,
        ),
{
}

/// A document that holds no entries is told from one with an empty entry.
pub proof fn law_kinds_of_bad_documents(document: Seq<u8>)
    ensures
        json_entries(document) is Err ==> (overrides_in(document) matches Err(error) && error.kind
            == ErrorKind::NotJson),
        json_entries(document) is Ok ==> (overrides_in(document) matches Err(error) ==> error.kind
            == ErrorKind::EmptyOverride),
{
}

} // verus!
