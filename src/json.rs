//! Serialisation of records through `serde_json`.
use vstd::prelude::*;
use crate::strmap::StrMap;

verus! {

#[verifier::external_type_specification]
#[verifier::external_body]
pub struct ExJsonError(serde_json::Error);

/// The entries of each record, in order.
pub open spec fn entry_seqs(v: Seq<StrMap>) -> Seq<Seq<(Seq<char>, Seq<char>)>> {
    v.map_values(|m: StrMap| m.entry_seq())
}

/// What `serde_json::to_string` yields for an array of objects whose members are the
/// given entries, each value a JSON string.
pub uninterp spec fn json_text_of(records: Seq<Seq<(Seq<char>, Seq<char>)>>) -> Seq<char>;

/// Relies on `serde_json::to_string` on a `Vec<serde_json::Value>`: one object per record,
/// one string member per entry. Values of strings and objects with string keys always
/// serialise, and the writer is a `Vec`, so the call does not fail.
#[verifier::external_body]
fn encode_records(data: &Vec<StrMap>) -> (r: Result<String, serde_json::Error>)
    ensures
        r is Ok,
        r is Ok ==> r->Ok_0@ == json_text_of(entry_seqs(data@)),
{
    let values: Vec<serde_json::Value> = data.iter().map(|m| {
        serde_json::Value::Object(
            m.entries.iter().map(|(k, v)| (k.clone(), serde_json::Value::String(v.clone()))).collect(),
        )
    }).collect();
    serde_json::to_string(&values)
}

/// The JSON text of a sequence of records: an array with one object per record.
pub fn stringify(data: &Vec<StrMap>) -> (r: Result<String, serde_json::Error>)
    ensures
        r is Ok,
        r is Ok ==> r->Ok_0@ == json_text_of(entry_seqs(data@)),
{
    encode_records(data)
}

} // verus!
