//! The JSON reading and writing the library relies on, done by `serde_json`.
//!
//! Each function here is trusted: its body calls `serde_json` and its contract
//! names the result. Parsing and serialising JSON is left to that crate.
use vstd::prelude::*;

verus! {

/// The string a JSON text denotes, when the text is one JSON string
/// (`serde_json::from_str::<String>`).
pub uninterp spec fn json_string_value(text: Seq<char>) -> Option<Seq<char>>;

/// The JSON text `serde_json::to_string` writes for a string.
pub uninterp spec fn json_string_text(s: Seq<char>) -> Option<Seq<char>>;

/// The strings a JSON text denotes, when the text is one array of strings
/// (`serde_json::from_str::<Vec<String>>`).
pub uninterp spec fn json_string_list_value(text: Seq<char>) -> Option<Seq<Seq<char>>>;

/// The pretty-printed JSON text `serde_json::to_string_pretty` writes for a
/// list of strings.
pub uninterp spec fn json_string_list_pretty_text(list: Seq<Seq<char>>) -> Option<Seq<char>>;

/// Parsing `text` as a JSON value (`serde_json::from_str::<Value>`), then the
/// member `key` of it as a string: `None` when the text is not JSON,
/// `Some(None)` when the value is no object, lacks `key`, or holds no string there.
pub uninterp spec fn json_str_member(text: Seq<char>, key: Seq<char>) -> Option<Option<Seq<char>>>;

/// Parsing `text` as a JSON value, then the members of its member `key`
/// (`get(key)` then `as_object`), each with its value as a string if it is one:
/// `None` when the text is not JSON, `Some(None)` when there is no such object.
pub uninterp spec fn json_object_members(text: Seq<char>, key: Seq<char>) -> Option<
    Option<Seq<(Seq<char>, Option<Seq<char>>)>>,
>;

/// `serde_json::from_str::<String>`: the string that the JSON text denotes.
/// Trusted: the result is named, and nothing more is claimed of it.
#[verifier::external_body]
pub(crate) fn decode_json_string(text: &str) -> (r: Option<String>)
    ensures
        match json_string_value(text@) {
            Some(s) => r matches Some(v) && v@ == s,
            None => r is None,
        },
{
    serde_json::from_str::<String>(text).ok()
}

/// `serde_json::to_string` on a string. Trusted: the result is named; it is
/// always written (serde_json fails only for a failing `Serialize` impl or a
/// map with non-string keys, and writes into a `Vec` that cannot fail); and the
/// text reads back (with `serde_json::from_str::<String>`) as the same string,
/// as serde_json's escaping of every character guarantees.
#[verifier::external_body]
pub(crate) fn encode_json_string(s: &str) -> (r: Option<String>)
    ensures
        match json_string_text(s@) {
            Some(t) => r matches Some(v) && v@ == t,
            None => r is None,
        },
        r is Some,
        r matches Some(t) ==> json_string_value(t@) == Some(s@),
{
    serde_json::to_string(s).ok()
}

/// `serde_json::from_str::<Vec<String>>`: the strings of a JSON array.
/// Trusted: the result is named, and nothing more is claimed of it.
#[verifier::external_body]
pub(crate) fn decode_json_string_list(text: &str) -> (r: Option<Vec<String>>)
    ensures
        match json_string_list_value(text@) {
            Some(l) => r matches Some(v) && v.deep_view() == l,
            None => r is None,
        },
{
    serde_json::from_str::<Vec<String>>(text).ok()
}

/// `serde_json::to_string_pretty` on a list of strings. Trusted: the result
/// is named; it is always written (for the same reasons as with a string);
/// and the text reads back (with `serde_json::from_str::<Vec<String>>`) as the
/// same list.
#[verifier::external_body]
pub(crate) fn encode_json_string_list_pretty(list: &[String]) -> (r: Option<String>)
    ensures
        match json_string_list_pretty_text(list.deep_view()) {
            Some(t) => r matches Some(v) && v@ == t,
            None => r is None,
        },
        r is Some,
        r matches Some(t) ==> json_string_list_value(t@) == Some(list.deep_view()),
{
    serde_json::to_string_pretty(list).ok()
}

/// `serde_json::from_str::<Value>` on `text`, then `value[key].as_str()`.
/// Trusted: the result is named, and nothing more is claimed of it.
#[verifier::external_body]
pub(crate) fn json_str_member_of(text: &str, key: &str) -> (r: Option<Option<String>>)
    ensures
        match json_str_member(text@, key@) {
            Some(Some(s)) => r matches Some(Some(v)) && v@ == s,
            Some(None) => r matches Some(None),
            None => r is None,
        },
{
    match serde_json::from_str::<serde_json::Value>(text) {
        Ok(v) => Some(v[key].as_str().map(|s| s.to_string())),
        Err(_) => None,
    }
}

/// `serde_json::from_str::<Value>` on `text`, then `get(key)` and
/// `as_object`, listing each member with `as_str` of its value.
/// Trusted: the result is named, and nothing more is claimed of it.
#[verifier::external_body]
pub(crate) fn json_object_members_of(text: &str, key: &str) -> (r: Option<Option<Vec<(String, Option<String>)>>>)
    ensures
        match json_object_members(text@, key@) {
            Some(Some(m)) => r matches Some(Some(v)) && v.deep_view() == m,
            Some(None) => r matches Some(None),
            None => r is None,
        },
{
    match serde_json::from_str::<serde_json::Value>(text) {
        Ok(v) => Some(v.get(key).and_then(|m| m.as_object()).map(|o| {
            o.iter().map(|(k, v)| (k.clone(), v.as_str().map(|s| s.to_string()))).collect()
        })),
        Err(_) => None,
    }
}

/// The port numbers a JSON text denotes, when the text is one array of
/// integers from 0 to 65535 (`serde_json::from_str::<Vec<u16>>`).
pub uninterp spec fn json_port_list_value(text: Seq<char>) -> Option<Seq<u16>>;

/// `serde_json::from_str::<Vec<u16>>`: the port numbers of a JSON array.
/// Trusted: the result is named, and nothing more is claimed of it.
#[verifier::external_body]
pub(crate) fn decode_json_port_list(text: &str) -> (r: Option<Vec<u16>>)
    ensures
        match json_port_list_value(text@) {
            Some(l) => r matches Some(v) && v@ == l,
            None => r is None,
        },
{
    serde_json::from_str::<Vec<u16>>(text).ok()
}

/// `serde_json::to_string_pretty` on a list of port numbers. Trusted: it is
/// always written (serde_json fails only for a failing `Serialize` impl or a
/// map with non-string keys, and writes into a `Vec` that cannot fail); and
/// the text reads back (with `serde_json::from_str::<Vec<u16>>`) as the same list.
#[verifier::external_body]
pub(crate) fn encode_json_port_list_pretty(list: &[u16]) -> (r: Option<String>)
    ensures
        r is Some,
        r matches Some(t) ==> json_port_list_value(t@) == Some(list@),
{
    serde_json::to_string_pretty(list).ok()
}

} // verus!
