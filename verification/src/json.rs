//! JSON read and written by the discovery logic: the `hostname` field of a
//! mount's reply and the stored list of previously connected addresses.
//! Parsing and printing are `serde_json`'s, reached through the wrappers
//! below.

use vstd::prelude::*;
use crate::unique::texts;

verus! {

#[verifier::external_type_specification]
#[verifier::external_body]
pub struct ExJsonError(serde_json::Error);

/// What `serde_json` makes of `body` when asked for the string under `key`:
/// `None` when `body` is not JSON, `Some(None)` when it holds no string under
/// that key (not an object, no such key, or another kind of value), and
/// `Some(Some(text))` otherwise.
pub uninterp spec fn json_string_field(body: Seq<u8>, key: Seq<char>) -> Option<Option<Seq<char>>>;

/// Calls `serde_json::from_slice` into a `serde_json::Value`, then
/// `Value::get` with `key`, and keeps the value only where it is a string.
/// What this gives is named `json_string_field`.
#[verifier::external_body]
fn json_text_field(body: &[u8], key: &str) -> (r: Result<Option<String>, serde_json::Error>)
    ensures
        r is Err <==> json_string_field(body@, key@) is None,
        r matches Ok(Some(s)) ==> json_string_field(body@, key@) == Some(Some(s@)),
        r matches Ok(None) ==> json_string_field(body@, key@) == Some(None::<Seq<char>>),
{
    match serde_json::from_slice::<serde_json::Value>(body) {
        Ok(value) => match value.get(key) {
            Some(serde_json::Value::String(s)) => Ok(Some(s.clone())),
            _ => Ok(None),
        },
        Err(e) => Err(e),
    }
}

/// What `serde_json` makes of `text` read as a JSON array of strings, `None`
/// where it is not one.
pub uninterp spec fn json_string_list(text: Seq<char>) -> Option<Seq<Seq<char>>>;

/// Calls `serde_json::from_str::<Vec<String>>`; what it gives is named
/// `json_string_list`.
#[verifier::external_body]
fn parse_json_string_list(text: &str) -> (r: Result<Vec<String>, serde_json::Error>)
    ensures
        r is Err <==> json_string_list(text@) is None,
        r matches Ok(v) ==> json_string_list(text@) == Some(texts(v@)),
{
    serde_json::from_str::<Vec<String>>(text)
}

/// The JSON text `serde_json` writes for an array of strings.
pub uninterp spec fn json_of_strings(items: Seq<Seq<char>>) -> Seq<char>;

/// Calls `serde_json::to_string` on a slice of strings; the text it gives is
/// named `json_of_strings`. The crate documents two ways for it to fail: a
/// `Serialize` impl that decides to fail, or a map with non-string keys.
/// Neither occurs in a slice of strings, whose impl writes each string into
/// an in-memory buffer, so it succeeds.
#[verifier::external_body]
fn strings_to_json(items: &[String]) -> (r: Result<String, serde_json::Error>)
    ensures
        r is Ok,
        r matches Ok(s) ==> s@ == json_of_strings(texts(items@)),
{
    serde_json::to_string(items)
}

/// The string under `key` in a JSON reply, if the reply is JSON and holds a
/// string there.
pub fn json_field(body: &[u8], key: &str) -> (field: Option<String>)
    ensures
        field matches Some(s) ==> json_string_field(body@, key@) == Some(Some(s@)),
        field is None ==> !(json_string_field(body@, key@) matches Some(Some(_))),
{
    match json_text_field(body, key) {
        Ok(Some(s)) => Some(s),
        _ => None,
    }
}

/// The stored connections once read: the parsed list, or no connections
/// where the stored text was no list of strings.
pub fn connections_or_empty(parsed: Option<Vec<String>>) -> (ips: Vec<String>)
    ensures
        parsed matches Some(v) ==> ips == v,
        parsed is None ==> ips@.len() == 0,
{
    match parsed {
        Some(v) => v,
        None => Vec::new(),
    }
}

/// The previously connected addresses stored as `data`: the JSON array of
/// strings it holds, or none when it holds something else.
pub fn parse_previous_connections(data: &str) -> (ips: Vec<String>)
    ensures
        json_string_list(data@) matches Some(l) ==> texts(ips@) == l,
        json_string_list(data@) is None ==> ips@.len() == 0,
{
    let parsed = match parse_json_string_list(data) {
        Ok(v) => Some(v),
        Err(_) => None,
    };
    connections_or_empty(parsed)
}

/// The text to store for the previously connected addresses: their JSON
/// array, which `serde_json` always writes for strings.
pub fn connections_json(ips: &Vec<String>) -> (json: Option<String>)
    ensures
        json is Some,
        json matches Some(s) ==> s@ == json_of_strings(texts(ips@)),
{
    match strings_to_json(ips.as_slice()) {
        Ok(s) => Some(s),
        Err(_) => None,
    }
}

} // verus!
