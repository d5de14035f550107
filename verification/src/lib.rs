//! Turns a flat JSON object into `.env`-style text: one `KEY=value` line per
//! top-level entry, with the key uppercased and every quote character stripped
//! from a string value's serialized form.

use vstd::prelude::*;

pub mod command;
pub mod convert;
pub mod json;

use crate::convert::{encode_entries, entries_model, env_text, newline_count, newline_free};
use crate::json::{decode_entries, error_text, json_decode};

verus! {

/// The input text could not be decoded as a JSON object.
#[derive(Debug)]
pub struct DecodeError {
    pub message: String,
}

/// Converts the text of a JSON-object file into `.env`-style text: one
/// `UPPERCASED_KEY=value` line per top-level entry, every quote character
/// stripped from a string value's serialized text, every other value rendered
/// as its compact JSON text. Succeeds exactly on texts that decode as a JSON
/// object, and then returns the output text together with the number of entries
/// written; as long as no key holds a raw newline, the output holds exactly one
/// newline — one line — per entry.
pub fn execute(content: &str) -> (r: Result<(String, usize), DecodeError>)
    ensures
        r is Ok <==> json_decode(content@) is Some,
        r matches Ok(p) ==> p.0@ == env_text(json_decode(content@).unwrap())
            && p.1 == json_decode(content@).unwrap().len(),
        r matches Ok(p) ==> ((forall|k: int| 0 <= k < json_decode(content@).unwrap().len()
            ==> newline_free((#[trigger] json_decode(content@).unwrap()[k]).0))
            ==> newline_count(p.0@) == json_decode(content@).unwrap().len()),
{
    match decode_entries(content) {
        Ok(entries) => {
            let count = entries.len();
            let out = encode_entries(&entries);
            proof {
                let m = json_decode(content@).unwrap();
                if forall|k: int| 0 <= k < m.len() ==> newline_free((#[trigger] m[k]).0) {
                    assert forall|k: int| 0 <= k < entries@.len() implies newline_free(
                        (#[trigger] entries_model(entries@)[k]).0) && newline_free(
                        entries_model(entries@)[k].1) by {
                        assert(entries_model(entries@)[k] == m[k]);
                        assert(newline_free(entries@[k].text@));
                    }
                }
            }
            Ok((out, count))
        },
        Err(e) => Err(DecodeError { message: error_text(&e) }),
    }
}

/// Law: the conversion is a function of the input text alone — any two output
/// texts and counts that the converter's contract allows for the same input are
/// identical, so running it twice on the same files writes byte-identical output.
pub proof fn lemma_convert_deterministic(
    content: Seq<char>,
    out1: Seq<char>,
    count1: nat,
    out2: Seq<char>,
    count2: nat,
)
    requires
        json_decode(content) is Some,
        out1 == env_text(json_decode(content).unwrap()),
        count1 == json_decode(content).unwrap().len(),
        out2 == env_text(json_decode(content).unwrap()),
        count2 == json_decode(content).unwrap().len(),
    ensures
        out1 == out2,
        count1 == count2,
{
}

} // verus!
