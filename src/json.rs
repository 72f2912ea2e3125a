//! What the library takes from serde_json: reading JSON text back in
//! serde_json's pretty layout, and the keys of a JSON object.

use vstd::prelude::*;
use crate::text::views;

verus! {

/// The text that serde_json's pretty printer writes for the JSON value that
/// `text` holds; `None` where `text` is not JSON.
pub uninterp spec fn pretty_json(text: Seq<char>) -> Option<Seq<char>>;

/// The keys of the JSON object that `text` holds; `None` where `text` is not
/// a JSON object.
pub uninterp spec fn json_object_keys(text: Seq<char>) -> Option<Set<Seq<char>>>;

/// Relies on `serde_json::from_str::<serde_json::Value>` to read the text and
/// on `serde_json::to_string_pretty` to write the value back, two spaces an
/// indent level, one member or element a line.
#[verifier::external_body]
pub(crate) fn reformat_json(text: &str) -> (r: Option<String>)
    ensures
        r matches Some(p) ==> pretty_json(text@) == Some(p@),
        r is None ==> pretty_json(text@) is None,
{
    match serde_json::from_str::<serde_json::Value>(text) {
        Ok(v) => serde_json::to_string_pretty(&v).ok(),
        Err(_) => None,
    }
}

/// Relies on `serde_json::from_str::<serde_json::Map<String, serde_json::Value>>`,
/// which succeeds exactly on text that holds a JSON object, for the keys of
/// that object.
#[verifier::external_body]
pub(crate) fn object_keys(text: &str) -> (r: Option<Vec<String>>)
    ensures
        r matches Some(v) ==> json_object_keys(text@) == Some(views(v@).to_set()),
        r is None ==> json_object_keys(text@) is None,
{
    match serde_json::from_str::<serde_json::Map<String, serde_json::Value>>(text) {
        Ok(m) => Some(m.keys().cloned().collect()),
        Err(_) => None,
    }
}

} // verus!
