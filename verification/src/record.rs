//! The archived record of one file: a JSON object with the model that wrote
//! the file and the file's content.

use std::collections::BTreeMap;
use vstd::prelude::*;

verus! {

/// The text that `serde_json::to_string_pretty` produces for the JSON object
/// whose members are the strings `value_a` under `key_a` and `value_b` under
/// `key_b`.
pub uninterp spec fn pretty_json_object(
    key_a: Seq<char>,
    value_a: Seq<char>,
    key_b: Seq<char>,
    value_b: Seq<char>,
) -> Seq<char>;

/// The string that the member `key` holds in the JSON object that
/// `serde_json::from_str` reads from `text`; `None` when `text` is not a JSON
/// object, has no member `key`, or that member is not a string.
pub uninterp spec fn json_string_member(text: Seq<char>, key: Seq<char>) -> Option<Seq<char>>;

/// Calls `serde_json::to_string_pretty` on the two-member object
/// `{key_a: value_a, key_b: value_b}` (held in a `BTreeMap`, which serde_json
/// writes as a JSON object, members in key order). Claims: it succeeds, since
/// its source fails only on a map key that is not a string, on a `Serialize`
/// impl that reports an error, or on an I/O error of the writer, and here the
/// keys are strings, `&str` serialises without error, and the writer is a
/// `Vec<u8>`, whose writes do not fail; the text is the named result for
/// these arguments; and reading it back with `serde_json::from_str` gives
/// each value under its key, since serde_json escapes every string it writes
/// and unescapes it when it reads.
#[verifier::external_body]
fn to_string_pretty_object(key_a: &str, value_a: &str, key_b: &str, value_b: &str) -> (r: Option<
    String,
>)
    requires
        key_a@ != key_b@,
    ensures
        r is Some,
        r matches Some(text) ==> {
            &&& text@ == pretty_json_object(key_a@, value_a@, key_b@, value_b@)
            &&& json_string_member(text@, key_a@) == Some(value_a@)
            &&& json_string_member(text@, key_b@) == Some(value_b@)
        },
{
    serde_json::to_string_pretty(&BTreeMap::from([(key_a, value_a), (key_b, value_b)])).ok()
}

/// Calls `serde_json::from_str` to read `text` as a JSON object (into a
/// `BTreeMap` of members, later duplicates replacing earlier ones as in
/// `serde_json::Value`) and takes the member `key` if it is a string.
/// Claims: the result is the named one for these arguments.
#[verifier::external_body]
fn from_str_string_member(text: &str, key: &str) -> (r: Option<String>)
    ensures
        match r {
            Some(s) => json_string_member(text@, key@) == Some(s@),
            None => json_string_member(text@, key@) is None,
        },
{
    match serde_json::from_str::<BTreeMap<String, serde_json::Value>>(text) {
        Ok(mut members) => match members.remove(key) {
            Some(serde_json::Value::String(s)) => Some(s),
            _ => None,
        },
        Err(_) => None,
    }
}

/// The record archived for a file with content `code` written by `model`.
pub open spec fn record_text(model: Seq<char>, code: Seq<char>) -> Seq<char> {
    pretty_json_object("model"@, model, "code"@, code)
}

/// The file content that an archived record holds.
pub open spec fn record_code(text: Seq<char>) -> Option<Seq<char>> {
    json_string_member(text, "code"@)
}

/// The model that an archived record names.
pub open spec fn record_model(text: Seq<char>) -> Option<Seq<char>> {
    json_string_member(text, "model"@)
}

/// Encodes the record `{"model": model, "code": code}` as pretty-printed JSON.
/// Serialisation of two string members does not fail, so the result is
/// always `Some`.
pub fn encode_record(model: &str, code: &str) -> (r: Option<String>)
    ensures
        r is Some,
        r matches Some(text) ==> {
            &&& text@ == record_text(model@, code@)
            &&& record_code(text@) == Some(code@)
            &&& record_model(text@) == Some(model@)
        },
{
    proof {
        reveal_strlit("model");
        reveal_strlit("code");
        assert("model"@[0] != "code"@[0]);
    }
    to_string_pretty_object("model", model, "code", code)
}

/// The file content held by an archived record, if `text` is one.
pub fn archived_code(text: &str) -> (r: Option<String>)
    ensures
        match r {
            Some(code) => record_code(text@) == Some(code@),
            None => record_code(text@) is None,
        },
{
    from_str_string_member(text, "code")
}

} // verus!
