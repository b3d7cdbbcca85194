//! JSON documents as the `json` crate reads them: request bodies are parsed
//! with it, and the library holds what it reads as plain values.

use vstd::prelude::*;

verus! {

/// The `json` crate's value type; the library reads it only through
/// `doc_of`, which copies it into a `JsonDoc`.
#[verifier::external_type_specification]
#[verifier::external_body]
pub struct ExJsonValue(::json::JsonValue);

/// A JSON document: a number is kept as the sign, mantissa and decimal
/// exponent that the `json` crate stores it as (`Number::as_parts`); an
/// object keeps its entries in the order they were read.
#[derive(Debug, PartialEq)]
pub enum JsonDoc {
    Null,
    Boolean(bool),
    Number(bool, u64, i16),
    Text(String),
    Object(Vec<(String, JsonDoc)>),
    Array(Vec<JsonDoc>),
}

/// What `json::parse` gives for `text`: the document it reads, or `None`
/// where it reports an error. The `json` crate's grammar and number
/// reading are its own; the result is named, not spelled out.
pub uninterp spec fn json_parsed(text: Seq<char>) -> Option<JsonDoc>;

/// Copies a value of the `json` crate into a `JsonDoc`, variant for
/// variant: both string forms become `Text`, a number its parts.
#[verifier::external_body]
fn doc_of(v: &::json::JsonValue) -> JsonDoc {
    match v {
        ::json::JsonValue::Null => JsonDoc::Null,
        ::json::JsonValue::Short(s) => JsonDoc::Text(s.as_str().to_string()),
        ::json::JsonValue::String(s) => JsonDoc::Text(s.clone()),
        ::json::JsonValue::Number(n) => {
            let (positive, mantissa, exponent) = n.as_parts();
            JsonDoc::Number(positive, mantissa, exponent)
        },
        ::json::JsonValue::Boolean(b) => JsonDoc::Boolean(*b),
        ::json::JsonValue::Object(o) => JsonDoc::Object(o.iter().map(|(k, x)| (k.to_string(), doc_of(x))).collect()),
        ::json::JsonValue::Array(a) => JsonDoc::Array(a.iter().map(doc_of).collect()),
    }
}

/// Reads `text` as a JSON document.
/// Trusted: calls `json::parse`, whose result depends on the text alone and
/// is named `json_parsed`; a parse error gives `None`.
#[verifier::external_body]
pub fn parse_json(text: &str) -> (r: Option<JsonDoc>)
    ensures
        r == json_parsed(text@),
{
    ::json::parse(text).ok().map(|v| doc_of(&v))
}

} // verus!
