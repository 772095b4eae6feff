//! Response-side profile: a declarative mapping from dotted paths in a JSON
//! response body to flat output field names, and the extraction step that
//! turns one parsed body into one flat record.

use vstd::prelude::*;

use crate::json::{deep_obj, spec_extract, JsonVal, JsonValue};

verus! {

broadcast use crate::json::lemma_deep_obj;

/// Maps a dotted JSON path to the output field it fills. Entry order fixes
/// the field order of every record produced with this profile. An empty
/// mapping means pass-through: the whole parsed body is the record.
#[derive(Debug)]
pub struct ResponseProfile {
    pub pick_results: Vec<(String, String)>,
}

impl ResponseProfile {
    pub fn new(pick_results: Vec<(String, String)>) -> (r: Self)
        ensures
            r.pick_results == pick_results,
    {
        ResponseProfile { pick_results }
    }
}

/// The flat record extracted from a parsed body: one field per mapping
/// entry, named by the entry, valued by the path lookup, in mapping order;
/// with an empty mapping, the parsed body itself.
pub open spec fn spec_extract_results(
    body: JsonVal,
    picks: Seq<(Seq<char>, Seq<char>)>,
) -> JsonVal {
    if picks.len() == 0 {
        body
    } else {
        JsonVal::Object(Seq::new(picks.len(), |i: int| (picks[i].1, spec_extract(body, picks[i].0))))
    }
}

/// Builds the flat record for one parsed response body. With an empty
/// mapping the record is the parsed body itself, unchanged: the
/// pass-through fallback.
#[verifier::loop_isolation(false)]
pub fn extract_results(body: &JsonValue, profile: &ResponseProfile) -> (r: JsonValue)
    ensures
        r.deep() == spec_extract_results(body.deep(), profile.pick_results.deep_view()),
        profile.pick_results@.len() == 0 ==> r.deep() == body.deep(),
{
    let picks = &profile.pick_results;
    if picks.len() == 0 {
        return body.duplicate();
    }
    let mut out: Vec<(String, JsonValue)> = Vec::new();
    let mut i: usize = 0;
    while i < picks.len()
        invariant
            i <= picks.len(),
            out@.len() == i,
            forall|j: int| 0 <= j < i ==> out@[j].0@ == picks@[j].1@ && out@[j].1.deep()
                == spec_extract(body.deep(), picks@[j].0@),
        decreases picks.len() - i,
    {
        let name = picks[i].1.clone();
        let value = crate::json::extract(body, picks[i].0.as_str());
        out.push((name, value));
        i += 1;
    }
    proof {
        assert(deep_obj(out@) =~= Seq::new(
            picks.deep_view().len(),
            |i: int| (picks.deep_view()[i].1, spec_extract(body.deep(), picks.deep_view()[i].0)),
        ));
    }
    JsonValue::Object(out)
}

/// What reading a response body yields: the flat record, or the decode
/// error when the body is not a JSON object.
pub open spec fn spec_get_results(text: Seq<char>, picks: Seq<(Seq<char>, Seq<char>)>) -> Result<
    JsonVal,
    crate::ErrVal,
> {
    match crate::outside::json_parse_of(text) {
        None => Err(crate::ErrVal::ResponseNotJson),
        Some(v) => if v.deep() is Object {
            Ok(spec_extract_results(v.deep(), picks))
        } else {
            Err(crate::ErrVal::ResponseNotJson)
        },
    }
}

/// A response as the engine sees it: the header names and the buffered body
/// text, handed over by whatever performed the call.
#[derive(Debug)]
pub struct ResponseExt {
    pub header_keys: Vec<String>,
    pub body: String,
}

impl ResponseExt {
    pub fn new(header_keys: Vec<String>, body: String) -> (r: Self)
        ensures
            r.header_keys == header_keys,
            r.body == body,
    {
        ResponseExt { header_keys, body }
    }

    /// Hands back the buffered body text.
    pub fn into_inner(self) -> (r: String)
        ensures
            r == self.body,
    {
        self.body
    }

    /// The names of the response's headers, in response order.
    pub fn get_header_keys(&self) -> (r: Vec<String>)
        ensures
            r.deep_view() == self.header_keys.deep_view(),
    {
        crate::dup_keys(&self.header_keys)
    }

    /// Parses the body as JSON and extracts the flat record: a body that is
    /// not a JSON object is a hard error; a missing path is not.
    pub fn get_results(&self, profile: &ResponseProfile) -> (r: Result<JsonValue, crate::Error>)
        ensures
            match r {
                Ok(v) => spec_get_results(self.body@, profile.pick_results.deep_view()) == Ok::<
                    JsonVal,
                    crate::ErrVal,
                >(v.deep()),
                Err(e) => spec_get_results(self.body@, profile.pick_results.deep_view()) == Err::<
                    JsonVal,
                    crate::ErrVal,
                >(e.deep()),
            },
    {
        match crate::outside::parse_json(self.body.as_str()) {
            None => Err(crate::Error::ResponseNotJson),
            Some(v) => {
                match &v {
                    JsonValue::Object(_) => Ok(extract_results(&v, profile)),
                    _ => Err(crate::Error::ResponseNotJson),
                }
            },
        }
    }
}

/// The status line rendered for one response: the protocol version and the
/// status, separated by one space.
pub fn get_status_text(version: &str, status: &str) -> (r: String)
    ensures
        r@ == version@ + " "@ + status@,
{
    let mut out = version.to_owned();
    out.append(" ");
    out.append(status);
    out
}

} // verus!
