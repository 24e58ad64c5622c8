//! Records as ordered key/value string pairs, and their JSON text.

use vstd::prelude::*;

verus! {

/// Lets `serde_json`'s error stand in results.
#[verifier::external_type_specification]
#[verifier::external_body]
pub struct ExJsonError(serde_json::Error);

/// The JSON text `serde_json::to_string` gives for an object built by
/// inserting these string keys and string values in order into a
/// `serde_json::Map`.
pub uninterp spec fn json_object_text(pairs: Seq<(Seq<char>, Seq<char>)>) -> Seq<char>;

/// A CSV record as JSON object fields: keys with their string values, in column order.
#[derive(Clone, Debug)]
pub struct JsonRecord {
    pub fields: Vec<(String, String)>,
}

/// The key/value pairs of a list of string pairs.
pub open spec fn pairs_view(fields: Seq<(String, String)>) -> Seq<(Seq<char>, Seq<char>)> {
    fields.map_values(|p: (String, String)| (p.0@, p.1@))
}

impl JsonRecord {
    /// The record's key/value pairs.
    pub open spec fn pairs(&self) -> Seq<(Seq<char>, Seq<char>)> {
        pairs_view(self.fields@)
    }
}

/// Serializes the fields as one JSON object with `serde_json`. Its
/// documentation says `to_string` fails only when a `Serialize` impl fails
/// or a map has non-string keys; neither happens for a map of strings to
/// strings, so this never fails.
#[verifier::external_body]
pub(crate) fn object_to_json(fields: &Vec<(String, String)>) -> (r: Result<String, serde_json::Error>)
    ensures
        r is Ok,
        r matches Ok(s) ==> s@ == json_object_text(pairs_view(fields@)),
{
    let mut map = serde_json::Map::new();
    for (k, v) in fields.iter() {
        map.insert(k.clone(), serde_json::Value::String(v.clone()));
    }
    serde_json::to_string(&serde_json::Value::Object(map))
}

/// The message of a `serde_json` error.
#[verifier::external_body]
pub(crate) fn json_error_text(e: &serde_json::Error) -> String {
    e.to_string()
}

} // verus!
