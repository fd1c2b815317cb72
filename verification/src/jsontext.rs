//! JSON field extraction, taken on trust from `serde_json`.
//!
//! The one call this crate makes into `serde_json` turns a document into a
//! table of string-valued fields: the object reached by a key path, as a list
//! of `(entry key, field values)` rows.  Which fields and which path are the
//! caller's business and are passed in as plain values, so the rules of the
//! `Local State` format stay in verified code.

use vstd::prelude::*;

verus! {

/// The table `json_string_table` extracts from document `s` at `path` for
/// `fields`: `None` where the document does not parse or the path does not
/// lead to an object, else one row per object entry in `serde_json`'s map
/// order, with one `Option` per requested field.
pub uninterp spec fn json_string_table_of(
    s: Seq<char>,
    path: Seq<Seq<char>>,
    fields: Seq<Seq<char>>,
) -> Option<Seq<(Seq<char>, Seq<Option<Seq<char>>>)>>;

/// Relies on `serde_json::from_str` and `Value::{get, as_object, as_str}`:
/// for a fixed document, path and field list the extracted table is a
/// function of those inputs alone (object entries come back in the map's
/// key order).
#[verifier::external_body]
pub fn json_string_table(s: &str, path: &Vec<String>, fields: &Vec<String>) -> (r: Option<
    Vec<(String, Vec<Option<String>>)>,
>)
    ensures
        r.deep_view() == json_string_table_of(s@, path.deep_view(), fields.deep_view()),
        r matches Some(t) ==> forall|i: int|
            0 <= i < t@.len() ==> (#[trigger] t@[i]).1@.len() == fields@.len(),
{
    let root: serde_json::Value = serde_json::from_str(s).ok()?;
    let mut cur = &root;
    for p in path.iter() {
        cur = cur.get(p)?;
    }
    let row = |(key, entry): (&String, &serde_json::Value)| {
        let values = fields.iter().map(
            |f| entry.get(f).and_then(|v| v.as_str()).map(|x| x.to_string()),
        ).collect();
        (key.clone(), values)
    };
    Some(cur.as_object()?.iter().map(row).collect())
}

} // verus!
