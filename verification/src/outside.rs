//! The crate's trusted boundary: every call into an outside crate is made
//! here, behind a wrapper whose contract Verus believes. Each wrapper's doc
//! comment names the outside function it relies on.

use vstd::prelude::*;

use crate::json::JsonValue;

verus! {

#[verifier::external_type_specification]
#[verifier::external_body]
pub struct ExSerdeValue(serde_json::Value);

/// What JSON text parses to, if it parses: a pure function of the text.
pub uninterp spec fn json_parse_of(s: Seq<char>) -> Option<JsonValue>;

/// Relies on the variants of `serde_json::Value`: moves each into the
/// engine's value form, one arm per variant, rendering a number as its
/// shortest decimal token.
#[verifier::external_body]
fn value_to_json(v: serde_json::Value) -> JsonValue {
    match v {
        serde_json::Value::Null => JsonValue::Null,
        serde_json::Value::Bool(b) => JsonValue::Bool(b),
        serde_json::Value::Number(n) => JsonValue::Number(n.to_string()),
        serde_json::Value::String(s) => JsonValue::Text(s),
        serde_json::Value::Array(a) => JsonValue::Array(
            a.into_iter().map(value_to_json).collect(),
        ),
        serde_json::Value::Object(m) => JsonValue::Object(
            m.into_iter().map(|(k, val)| (k, value_to_json(val))).collect(),
        ),
    }
}

/// Relies on `serde_json::from_str::<serde_json::Value>`: whether text is
/// valid JSON, and the value it holds, depend on the text alone.
#[verifier::external_body]
pub fn parse_json(text: &str) -> (r: Option<JsonValue>)
    ensures
        r == json_parse_of(text@),
{
    match serde_json::from_str::<serde_json::Value>(text) {
        Ok(v) => Some(value_to_json(v)),
        Err(_) => None,
    }
}

/// The `application/x-www-form-urlencoded` text of a list of string pairs:
/// a pure function of the pairs.
pub uninterp spec fn form_encoded_of(pairs: Seq<(Seq<char>, Seq<char>)>) -> Seq<char>;

/// Relies on `serde_urlencoded::to_string`: on a list of string pairs the
/// encoder always succeeds, yields the empty string for the empty list, and
/// depends on the pairs alone.
#[verifier::external_body]
pub fn form_encode(pairs: &Vec<(String, String)>) -> (r: String)
    ensures
        r@ == form_encoded_of(pairs.deep_view()),
        pairs@.len() == 0 ==> r@.len() == 0,
{
    serde_urlencoded::to_string(pairs).unwrap_or_default()
}

/// Whether a string parses as an absolute URL: a pure function of the
/// string.
pub uninterp spec fn url_parse_ok(s: Seq<char>) -> bool;

/// Relies on `url::Url::parse`: success depends on the string alone.
#[verifier::external_body]
pub fn url_is_valid(s: &str) -> (r: bool)
    ensures
        r == url_parse_ok(s@),
{
    url::Url::parse(s).is_ok()
}

/// The normalized text of an absolute URL: a pure function of the string.
pub uninterp spec fn url_norm_of(s: Seq<char>) -> Seq<char>;

/// Relies on `url::Url::parse` and `Into<String>`: a URL that parses has
/// one normalized text.
#[verifier::external_body]
pub fn url_normalized(u: &str) -> (r: Option<String>)
    ensures
        r is Some <==> url_parse_ok(u@),
        r matches Some(s) ==> s@ == url_norm_of(u@),
{
    match url::Url::parse(u) {
        Ok(parsed) => Some(parsed.into()),
        Err(_) => None,
    }
}

/// The normalized URL text with its query replaced by the given string: a
/// pure function of the two strings.
pub uninterp spec fn url_with_query_of(u: Seq<char>, q: Seq<char>) -> Seq<char>;

/// Relies on `url::Url::parse` and `url::Url::set_query`: replacing the
/// query of a URL that parses cannot fail and depends on the two strings
/// alone.
#[verifier::external_body]
pub fn url_with_query(u: &str, q: &str) -> (r: Option<String>)
    ensures
        r is Some <==> url_parse_ok(u@),
        r matches Some(s) ==> s@ == url_with_query_of(u@, q@),
{
    match url::Url::parse(u) {
        Ok(mut parsed) => {
            parsed.set_query(Some(q));
            Some(parsed.into())
        },
        Err(_) => None,
    }
}

/// A URL's text with the query removed, and its decoded query pairs in
/// order: a pure function of the string.
pub uninterp spec fn url_split_of(s: Seq<char>) -> (Seq<char>, Seq<(Seq<char>, Seq<char>)>);

/// Relies on `url::Url::parse`, `url::Url::query_pairs` and
/// `url::Url::set_query`: the split of a URL that parses depends on the
/// string alone, and the text a `url::Url` writes back parses again.
#[verifier::external_body]
pub fn url_split(s: &str) -> (r: Option<(String, Vec<(String, String)>)>)
    ensures
        r is Some <==> url_parse_ok(s@),
        r matches Some(p) ==> (p.0@, p.1.deep_view()) == url_split_of(s@),
        r is Some ==> url_parse_ok(url_split_of(s@).0),
{
    match url::Url::parse(s) {
        Ok(mut u) => {
            let pairs: Vec<(String, String)> = u.query_pairs().map(
                |(k, v)| (k.into_owned(), v.into_owned()),
            ).collect();
            u.set_query(None);
            Some((u.into(), pairs))
        },
        Err(_) => None,
    }
}

} // verus!
