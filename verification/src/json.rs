//! Decoding the input text as a flat JSON object, through serde_json.

use vstd::prelude::*;
use crate::convert::{Entry, EntryModel, entries_model, newline_free};

verus! {

#[verifier::external_type_specification]
#[verifier::external_body]
pub struct ExSerdeError(serde_json::Error);

/// What decoding yields: `None` when the text is not a JSON object, otherwise
/// the object's entries — key, compact JSON text of the value, and whether the
/// value is a string — in the fixed (key-sorted) order the decoder hands them out.
pub uninterp spec fn json_decode(s: Seq<char>) -> Option<Seq<EntryModel>>;

/// Relies on `serde_json::from_str::<serde_json::Map<String, serde_json::Value>>`,
/// which decodes the text as a JSON object and fails on any other top level; on
/// `serde_json::to_string`, which renders a value as compact JSON text and cannot
/// fail on a `Value`; and on `serde_json::Value::is_string`. Each depends on the
/// text alone, and the map (a `BTreeMap` under serde_json's default features)
/// iterates its entries in key-sorted order, so the whole result is a function
/// of `content`, named `json_decode`. The map's keys are distinct; a string
/// value's compact JSON text is its contents surrounded by one quote on each
/// side; and compact JSON text holds no raw control character (newlines inside
/// strings appear as the escape `\n`), so every value text is newline-free.
#[verifier::external_body]
pub(crate) fn decode_entries(content: &str) -> (r: Result<Vec<Entry>, serde_json::Error>)
    ensures
        r is Ok <==> json_decode(content@) is Some,
        r matches Ok(v) ==> entries_model(v@) == json_decode(content@).unwrap(),
        r matches Ok(v) ==> forall|i: int, j: int|
            0 <= i < j < v@.len() ==> #[trigger] v@[i].key@ != #[trigger] v@[j].key@,
        r matches Ok(v) ==> forall|i: int|
            0 <= i < v@.len() && (#[trigger] v@[i]).is_string ==> v@[i].text@.len() >= 2
                && v@[i].text@[0] == '"' && v@[i].text@[v@[i].text@.len() - 1] == '"',
        r matches Ok(v) ==> forall|i: int|
            0 <= i < v@.len() ==> newline_free((#[trigger] v@[i]).text@),
{
    let map: serde_json::Map<String, serde_json::Value> = match serde_json::from_str(content) {
        Ok(m) => m,
        Err(e) => return Err(e),
    };
    let mut out = Vec::new();
    for (key, value) in map {
        let text = match serde_json::to_string(&value) {
            Ok(t) => t,
            Err(e) => return Err(e),
        };
        out.push(Entry { key, text, is_string: value.is_string() });
    }
    Ok(out)
}

/// Relies on the `Display` implementation of `serde_json::Error` for the text
/// of the error message.
#[verifier::external_body]
pub(crate) fn error_text(e: &serde_json::Error) -> String {
    e.to_string()
}

} // verus!
