//! Configuration-driven HTTP request engine: reusable request profiles with
//! per-call overrides, content-type-aware body encoding, dotted-path JSON
//! response extraction, and a batch output sink with a write-once header.

pub mod batch;
pub mod outside;
pub mod profile;
pub mod registry;
pub mod json;
pub mod response;
pub mod text;

use vstd::prelude::*;

verus! {

/// Destination of one override pair: a request header, a query-string
/// parameter, or a body field.
#[derive(Debug, Clone, Copy, PartialEq, Eq, Structural)]
pub enum KeyValType {
    Header,
    Query,
    Body,
}

/// Caller-supplied overrides for one request, split by destination.
/// Each list is applied in order; later entries for the same key win.
#[derive(Debug, Clone)]
pub struct ExtraArgs {
    pub headers: Vec<(String, String)>,
    pub query: Vec<(String, String)>,
    pub body: Vec<(String, String)>,
}

/// Copies a list of string pairs, entry for entry.
#[verifier::loop_isolation(false)]
pub fn dup_pairs(pairs: &Vec<(String, String)>) -> (r: Vec<(String, String)>)
    ensures
        r.deep_view() == pairs.deep_view(),
{
    let mut out: Vec<(String, String)> = Vec::new();
    let mut i: usize = 0;
    while i < pairs.len()
        invariant
            i <= pairs.len(),
            out@.len() == i,
            forall|j: int| 0 <= j < i ==> out@[j].0@ == pairs@[j].0@ && out@[j].1@
                == pairs@[j].1@,
        decreases pairs.len() - i,
    {
        let k = pairs[i].0.clone();
        let v = pairs[i].1.clone();
        out.push((k, v));
        i += 1;
    }
    proof {
        assert(out.deep_view() =~= pairs.deep_view());
    }
    out
}

/// Copies a list of strings, entry for entry.
#[verifier::loop_isolation(false)]
pub fn dup_keys(keys: &Vec<String>) -> (r: Vec<String>)
    ensures
        r.deep_view() == keys.deep_view(),
{
    let mut out: Vec<String> = Vec::new();
    let mut i: usize = 0;
    while i < keys.len()
        invariant
            i <= keys.len(),
            out@.len() == i,
            forall|j: int| 0 <= j < i ==> out@[j]@ == keys@[j]@,
        decreases keys.len() - i,
    {
        let k = keys[i].clone();
        out.push(k);
        i += 1;
    }
    proof {
        assert(out.deep_view() =~= keys.deep_view());
    }
    out
}

impl ExtraArgs {
    /// A copy carrying the same overrides.
    pub fn duplicate(&self) -> (r: Self)
        ensures
            r.headers.deep_view() == self.headers.deep_view(),
            r.query.deep_view() == self.query.deep_view(),
            r.body.deep_view() == self.body.deep_view(),
    {
        ExtraArgs {
            headers: dup_pairs(&self.headers),
            query: dup_pairs(&self.query),
            body: dup_pairs(&self.body),
        }
    }

    pub fn new() -> (r: Self)
        ensures
            r.headers@ == Seq::<(String, String)>::empty(),
            r.query@ == Seq::<(String, String)>::empty(),
            r.body@ == Seq::<(String, String)>::empty(),
    {
        ExtraArgs { headers: Vec::new(), query: Vec::new(), body: Vec::new() }
    }

    pub fn new_with_headers(headers: Vec<(String, String)>) -> (r: Self)
        ensures
            r.headers == headers,
            r.query@ == Seq::<(String, String)>::empty(),
            r.body@ == Seq::<(String, String)>::empty(),
    {
        ExtraArgs { headers, query: Vec::new(), body: Vec::new() }
    }

    pub fn new_with_query(query: Vec<(String, String)>) -> (r: Self)
        ensures
            r.query == query,
            r.headers@ == Seq::<(String, String)>::empty(),
            r.body@ == Seq::<(String, String)>::empty(),
    {
        ExtraArgs { headers: Vec::new(), query, body: Vec::new() }
    }
}

/// Whether a value reads as its type's default value.
pub fn is_default<T: Default + PartialEq>(t: &T) -> bool {
    *t == T::default()
}

/// Model of an engine error.
pub enum ErrVal {
    /// A header override's name is not a legal header name.
    InvalidHeaderName(Seq<char>),
    /// A header override's value (named by its key) is not a legal header value.
    InvalidHeaderValue(Seq<char>),
    /// A body override's value (named by its key) is not valid JSON.
    MalformedOverride(Seq<char>),
    /// The effective content type is outside the supported set.
    UnsupportedContentType(Seq<char>),
    /// A field (named by its key) cannot appear in a form encoding.
    NotEncodable(Seq<char>),
    /// A profile part that must be a JSON object (named) is not one.
    NotAnObject(Seq<char>),
    /// The profile's URL does not parse as an absolute URL.
    InvalidUrl(Seq<char>),
    /// A registry entry (named) failed validation.
    ProfileInvalid(Seq<char>),
    /// A response body is not valid JSON, or not a JSON object.
    ResponseNotJson,
}

/// An engine error: which rule a request, profile or response broke, with
/// the offending name or value.
#[derive(Debug)]
pub enum Error {
    InvalidHeaderName(String),
    InvalidHeaderValue(String),
    MalformedOverride(String),
    UnsupportedContentType(String),
    NotEncodable(String),
    NotAnObject(String),
    InvalidUrl(String),
    ProfileInvalid(String),
    ResponseNotJson,
}

/// The message text of an error, by its model.
pub open spec fn spec_message(e: ErrVal) -> Seq<char> {
    match e {
        ErrVal::InvalidHeaderName(s) => "invalid header name: "@ + s,
        ErrVal::InvalidHeaderValue(s) => "invalid header value for key: "@ + s,
        ErrVal::MalformedOverride(s) => "malformed override value for key: "@ + s,
        ErrVal::UnsupportedContentType(s) => "unsupported content type: "@ + s,
        ErrVal::NotEncodable(s) => "field cannot be form encoded: "@ + s,
        ErrVal::NotAnObject(s) => "must be an object: "@ + s,
        ErrVal::InvalidUrl(s) => "invalid url: "@ + s,
        ErrVal::ProfileInvalid(s) => "failed to validate profile: "@ + s,
        ErrVal::ResponseNotJson => "response was not valid JSON"@,
    }
}

impl Error {
    /// The error as a mathematical value.
    pub open spec fn deep(self) -> ErrVal {
        match self {
            Error::InvalidHeaderName(s) => ErrVal::InvalidHeaderName(s@),
            Error::InvalidHeaderValue(s) => ErrVal::InvalidHeaderValue(s@),
            Error::MalformedOverride(s) => ErrVal::MalformedOverride(s@),
            Error::UnsupportedContentType(s) => ErrVal::UnsupportedContentType(s@),
            Error::NotEncodable(s) => ErrVal::NotEncodable(s@),
            Error::NotAnObject(s) => ErrVal::NotAnObject(s@),
            Error::InvalidUrl(s) => ErrVal::InvalidUrl(s@),
            Error::ProfileInvalid(s) => ErrVal::ProfileInvalid(s@),
            Error::ResponseNotJson => ErrVal::ResponseNotJson,
        }
    }

    /// A human-readable description of the error.
    pub fn message(&self) -> (r: String)
        ensures
            r@ == spec_message(self.deep()),
    {
        match self {
            Error::InvalidHeaderName(s) => {
                let mut m = String::from_str("invalid header name: ");
                m.append(s.as_str());
                m
            },
            Error::InvalidHeaderValue(s) => {
                let mut m = String::from_str("invalid header value for key: ");
                m.append(s.as_str());
                m
            },
            Error::MalformedOverride(s) => {
                let mut m = String::from_str("malformed override value for key: ");
                m.append(s.as_str());
                m
            },
            Error::UnsupportedContentType(s) => {
                let mut m = String::from_str("unsupported content type: ");
                m.append(s.as_str());
                m
            },
            Error::NotEncodable(s) => {
                let mut m = String::from_str("field cannot be form encoded: ");
                m.append(s.as_str());
                m
            },
            Error::NotAnObject(s) => {
                let mut m = String::from_str("must be an object: ");
                m.append(s.as_str());
                m
            },
            Error::InvalidUrl(s) => {
                let mut m = String::from_str("invalid url: ");
                m.append(s.as_str());
                m
            },
            Error::ProfileInvalid(s) => {
                let mut m = String::from_str("failed to validate profile: ");
                m.append(s.as_str());
                m
            },
            Error::ResponseNotJson => String::from_str("response was not valid JSON"),
        }
    }
}

/// What every configuration part must satisfy before use.
pub trait ValidateConfig {
    /// The part's validity as a mathematical statement.
    spec fn valid(&self) -> bool;

    /// Checks validity, reporting the first rule broken.
    fn validate(&self) -> (r: Result<(), Error>)
        ensures
            r is Ok <==> self.valid(),
    ;
}

} // verus!
