//! Reading the JSON files and replies the tool consumes.
//!
//! Parsing is serde_json's; what the tool does with the result is verified
//! by the functions that call these.

use vstd::prelude::*;

verus! {

/// What one key of a JSON document holds, as far as the tool reads it.
pub enum Json {
    /// The text is not JSON; serde_json's message says why.
    Invalid(String),
    /// The document is JSON, but has no such key (or is not an object).
    Missing,
    /// A string.
    Text(String),
    /// An array: each element's string, or `None` for an element that is
    /// not one.
    List(Vec<Option<String>>),
    /// Anything else.
    Other,
}

pub enum JsonView {
    Invalid(Seq<char>),
    Missing,
    Text(Seq<char>),
    List(Seq<Option<Seq<char>>>),
    Other,
}

pub open spec fn opt_views(v: Seq<Option<String>>) -> Seq<Option<Seq<char>>> {
    Seq::new(
        v.len(),
        |i: int|
            match v[i] {
                Some(s) => Some(s@),
                None => None,
            },
    )
}

impl View for Json {
    type V = JsonView;

    open spec fn view(&self) -> JsonView {
        match self {
            Json::Invalid(m) => JsonView::Invalid(m@),
            Json::Missing => JsonView::Missing,
            Json::Text(s) => JsonView::Text(s@),
            Json::List(v) => JsonView::List(opt_views(v@)),
            Json::Other => JsonView::Other,
        }
    }
}

/// The string a key holds, if it holds one.
pub open spec fn text_spec(j: JsonView) -> Option<Seq<char>> {
    match j {
        JsonView::Text(s) => Some(s),
        _ => None,
    }
}

pub fn text_in(j: Json) -> (r: Option<String>)
    ensures
        match r {
            Some(s) => text_spec(j@) == Some(s@),
            None => text_spec(j@) is None,
        },
{
    match j {
        Json::Text(s) => Some(s),
        _ => None,
    }
}

/// What serde_json makes of `key` in the document `text`.
pub uninterp spec fn json_field(text: Seq<char>, key: Seq<char>) -> JsonView;

/// What serde_json makes of `key` in the document `bytes`.
pub uninterp spec fn json_field_bytes(bytes: Seq<u8>, key: Seq<char>) -> JsonView;

/// The strings serde_json reads from `bytes` when asked for a list of
/// strings, or `None` when it refuses them.
pub uninterp spec fn json_string_list(bytes: Seq<u8>) -> Option<Seq<Seq<char>>>;

/// Trusted: `serde_json::from_str::<serde_json::Value>` on `text`, then
/// `Value::get(key)` and the variant found there. The contract only names
/// the result: the same text and key always give the same answer. When the
/// text is not JSON, serde_json's message is passed on as part of that named
/// result; what it says is not stated.
#[verifier::external_body]
pub(crate) fn field(text: &str, key: &str) -> (r: Json)
    ensures
        r@ == json_field(text@, key@),
{
    match serde_json::from_str::<serde_json::Value>(text) {
        Err(e) => Json::Invalid(e.to_string()),
        Ok(v) => match v.get(key) {
            None => Json::Missing,
            Some(serde_json::Value::String(s)) => Json::Text(s.clone()),
            Some(serde_json::Value::Array(a)) => Json::List(
                a.iter().map(|x| x.as_str().map(String::from)).collect(),
            ),
            Some(_) => Json::Other,
        },
    }
}

/// Trusted: as [`field`], through `serde_json::from_slice` on raw bytes.
#[verifier::external_body]
pub(crate) fn field_bytes(bytes: &[u8], key: &str) -> (r: Json)
    ensures
        r@ == json_field_bytes(bytes@, key@),
{
    match serde_json::from_slice::<serde_json::Value>(bytes) {
        Err(e) => Json::Invalid(e.to_string()),
        Ok(v) => match v.get(key) {
            None => Json::Missing,
            Some(serde_json::Value::String(s)) => Json::Text(s.clone()),
            Some(serde_json::Value::Array(a)) => Json::List(
                a.iter().map(|x| x.as_str().map(String::from)).collect(),
            ),
            Some(_) => Json::Other,
        },
    }
}

/// Trusted: `serde_json::from_slice::<Vec<String>>`. On success the strings
/// are the named result; on failure the message is serde_json's own, and
/// what it says is not stated.
#[verifier::external_body]
pub(crate) fn string_list(bytes: &[u8]) -> (r: Result<Vec<String>, String>)
    ensures
        match r {
            Ok(v) => json_string_list(bytes@) == Some(crate::text::string_views(v@)),
            Err(_) => json_string_list(bytes@) is None,
        },
{
    serde_json::from_slice::<Vec<String>>(bytes).map_err(|e| e.to_string())
}

} // verus!
