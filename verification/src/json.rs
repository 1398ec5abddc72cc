//! What serde_json reads from and writes to JSON text.

use std::collections::BTreeMap;

use serde_json::Value;
use vstd::prelude::*;

use crate::text::{opt_view, views};

verus! {

/// The bytes are not a JSON document.
#[derive(Clone, Copy, Debug, PartialEq, Eq, Structural)]
pub struct NotJson;

/// A text as a JSON string, quotes included, as serde_json writes it.
pub uninterp spec fn quoted(text: Seq<char>) -> Seq<char>;

/// Calls `serde_json::to_string` on a text. Which characters it escapes is left to the name
/// `quoted`.
#[verifier::external_body]
pub(crate) fn quote(text: &str) -> (r: String)
    ensures
        r@ == quoted(text@),
{
    serde_json::to_string(text).expect("a text has a JSON form")
}

/// The string at a JSON pointer of a document, as serde_json finds it; nothing where the pointer
/// leads nowhere or to something else.
pub uninterp spec fn json_text_at(document: Seq<u8>, pointer: Seq<char>) -> Result<
    Option<Seq<char>>,
    NotJson,
>;

/// Calls `serde_json::from_slice`, `Value::pointer` and `Value::as_str`. What a document is and
/// where a pointer leads is left to the name `json_text_at`.
#[verifier::external_body]
pub(crate) fn text_at(document: &[u8], pointer: &str) -> (r: Result<Option<String>, NotJson>)
    ensures
        match r {
            Ok(found) => json_text_at(document@, pointer@) == Ok::<_, NotJson>(opt_view(found)),
            Err(e) => json_text_at(document@, pointer@) == Err::<Option<Seq<char>>, _>(e),
        },
{
    match serde_json::from_slice::<Value>(document) {
        Ok(value) => Ok(value.pointer(pointer).and_then(Value::as_str).map(str::to_owned)),
        Err(_) => Err(NotJson),
    }
}

/// The items of the array at a JSON pointer of a document, each as JSON text; nothing where the
/// pointer leads nowhere or to something else.
pub uninterp spec fn json_items_at(document: Seq<u8>, pointer: Seq<char>) -> Result<
    Option<Seq<Seq<char>>>,
    NotJson,
>;

/// Calls `serde_json::from_slice`, `Value::pointer` and `Value::as_array`, and writes each item of
/// the array as JSON text again.
#[verifier::external_body]
pub(crate) fn items_at(document: &[u8], pointer: &str) -> (r: Result<Option<Vec<String>>, NotJson>)
    ensures
        match r {
            Ok(Some(items)) => json_items_at(document@, pointer@) == Ok::<_, NotJson>(
                Some(views(items@)),
            ),
            Ok(None) => json_items_at(document@, pointer@) == Ok::<_, NotJson>(
                None::<Seq<Seq<char>>>,
            ),
            Err(e) => json_items_at(document@, pointer@) == Err::<Option<Seq<Seq<char>>>, _>(e),
        },
{
    match serde_json::from_slice::<Value>(document) {
        Ok(value) => Ok(value.pointer(pointer).and_then(Value::as_array).map(|items| {
            items.iter().map(|item| item.to_string()).collect()
        })),
        Err(_) => Err(NotJson),
    }
}

/// The entries of a JSON object whose values are all strings, ordered by key, each key once.
pub uninterp spec fn json_entries(document: Seq<u8>) -> Result<
    Seq<(Seq<char>, Seq<char>)>,
    NotJson,
>;

/// The views of pairs of texts.
pub open spec fn pair_views(pairs: Seq<(String, String)>) -> Seq<(Seq<char>, Seq<char>)> {
    pairs.map_values(|pair: (String, String)| (pair.0@, pair.1@))
}

/// Calls `serde_json::from_slice` for a map from texts to texts. Anything but an object of strings
/// counts as no such document. Which entries a document has is left to the name `json_entries`.
#[verifier::external_body]
pub(crate) fn string_entries(document: &[u8]) -> (r: Result<Vec<(String, String)>, NotJson>)
    ensures
        match r {
            Ok(entries) => json_entries(document@) == Ok::<_, NotJson>(pair_views(entries@)),
            Err(e) => json_entries(document@) == Err::<Seq<(Seq<char>, Seq<char>)>, _>(e),
        },
{
    match serde_json::from_slice::<BTreeMap<String, String>>(document) {
        Ok(map) => Ok(map.into_iter().collect()),
        Err(_) => Err(NotJson),
    }
}

} // verus!
