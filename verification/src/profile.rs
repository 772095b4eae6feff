//! The request profile: a reusable template for one HTTP call, and the pure
//! merge that folds caller overrides into it and encodes the body by the
//! effective content type. The merge never touches the network; dispatch is
//! left to the surrounding program.

use vstd::prelude::*;

use crate::json::{
    deep_obj, spec_find_char, spec_json_text, spec_obj_insert, find_char_at, obj_insert, JsonVal,
    JsonValue,
};
use crate::outside::{
    form_encoded_of, json_parse_of, url_parse_ok, url_norm_of, url_with_query_of, url_split_of,
    form_encode, parse_json, url_is_valid, url_normalized, url_with_query, url_split,
};
use crate::text::{ascii_lower, spec_lower};
use crate::{dup_pairs, Error, ErrVal, ExtraArgs, ValidateConfig};

verus! {

broadcast use
    vstd::seq::axiom_seq_index_decreases,
    vstd::seq::axiom_seq_subrange_decreases,
    vstd::std_specs::vec::axiom_vec_index_decreases;

/// Header name and value lists as mathematics: name/value pairs of
/// character sequences.
pub type HeaderSeq = Seq<(Seq<char>, Seq<char>)>;

/// Whether one character may appear in a header name: the HTTP token set,
/// with ASCII letters of either case.
pub open spec fn spec_hname_char(c: char) -> bool {
    ('0' <= c <= '9') || ('a' <= c <= 'z') || ('A' <= c <= 'Z') || c == '!' || c == '#' || c == '$'
        || c == '%' || c == '&' || c == '\'' || c == '*' || c == '+' || c == '-' || c == '.' || c
        == '^' || c == '_' || c == '`' || c == '|' || c == '~'
}

/// Whether a string is a legal header name.
pub open spec fn spec_hname_valid(s: Seq<char>) -> bool {
    s.len() > 0 && forall|i: int| 0 <= i < s.len() ==> spec_hname_char(#[trigger] s[i])
}

/// Whether a string is a legal header value: tab, or any character from
/// space up, delete excluded — every byte of its UTF-8 form is then a legal
/// header value byte.
pub open spec fn spec_hvalue_valid(s: Seq<char>) -> bool {
    forall|i: int| 0 <= i < s.len() ==> (#[trigger] s[i] == '\t' || (' ' <= s[i] && s[i]
        != '\u{7f}'))
}

fn hname_char(c: char) -> (r: bool)
    ensures
        r == spec_hname_char(c),
{
    ('0' <= c && c <= '9') || ('a' <= c && c <= 'z') || ('A' <= c && c <= 'Z') || c == '!' || c
        == '#' || c == '$' || c == '%' || c == '&' || c == '\'' || c == '*' || c == '+' || c == '-'
        || c == '.' || c == '^' || c == '_' || c == '`' || c == '|' || c == '~'
}

#[verifier::loop_isolation(false)]
fn hname_valid(s: &str) -> (r: bool)
    ensures
        r == spec_hname_valid(s@),
{
    let n = s.unicode_len();
    if n == 0 {
        return false;
    }
    let mut i: usize = 0;
    while i < n
        invariant
            i <= n,
            forall|j: int| 0 <= j < i ==> spec_hname_char(#[trigger] s@[j]),
        decreases n - i,
    {
        if !hname_char(s.get_char(i)) {
            return false;
        }
        i += 1;
    }
    true
}

#[verifier::loop_isolation(false)]
fn hvalue_valid(s: &str) -> (r: bool)
    ensures
        r == spec_hvalue_valid(s@),
{
    let n = s.unicode_len();
    let mut i: usize = 0;
    while i < n
        invariant
            i <= n,
            forall|j: int| 0 <= j < i ==> (#[trigger] s@[j] == '\t' || (' ' <= s@[j] && s@[j]
                != '\u{7f}')),
        decreases n - i,
    {
        let c = s.get_char(i);
        if !(c == '\t' || (' ' <= c && c != '\u{7f}')) {
            return false;
        }
        i += 1;
    }
    true
}

/// Insert-or-replace of one header, matching names case-insensitively: a
/// present name keeps its position and gets the lowercased override name and
/// the new value; an absent name is appended. `key` is already lowercase.
pub open spec fn spec_header_insert(h: HeaderSeq, key: Seq<char>, value: Seq<char>) -> HeaderSeq
    decreases h.len(),
{
    if h.len() == 0 {
        seq![(key, value)]
    } else if spec_lower(h[0].0) == key {
        seq![(key, value)] + h.subrange(1, h.len() as int)
    } else {
        seq![h[0]] + spec_header_insert(h.subrange(1, h.len() as int), key, value)
    }
}

proof fn lemma_header_insert_replace_at(h: HeaderSeq, key: Seq<char>, value: Seq<char>, j: int)
    requires
        0 <= j < h.len(),
        spec_lower(h[j].0) == key,
        forall|i: int| 0 <= i < j ==> spec_lower(h[i].0) != key,
    ensures
        spec_header_insert(h, key, value) == h.update(j, (key, value)),
    decreases j,
{
    if j == 0 {
        assert(spec_header_insert(h, key, value) =~= h.update(0, (key, value)));
    } else {
        lemma_header_insert_replace_at(h.subrange(1, h.len() as int), key, value, j - 1);
        assert(spec_header_insert(h, key, value) =~= h.update(j, (key, value)));
    }
}

proof fn lemma_header_insert_append(h: HeaderSeq, key: Seq<char>, value: Seq<char>)
    requires
        forall|i: int| 0 <= i < h.len() ==> spec_lower(h[i].0) != key,
    ensures
        spec_header_insert(h, key, value) == h.push((key, value)),
    decreases h.len(),
{
    if h.len() == 0 {
        assert(spec_header_insert(h, key, value) =~= h.push((key, value)));
    } else {
        lemma_header_insert_append(h.subrange(1, h.len() as int), key, value);
        assert(spec_header_insert(h, key, value) =~= h.push((key, value)));
    }
}

/// Insert-or-replace on a header list; `key` is already lowercase.
#[verifier::loop_isolation(false)]
fn header_insert(h: &mut Vec<(String, String)>, key: String, value: String)
    ensures
        final(h).deep_view() == spec_header_insert(old(h).deep_view(), key@, value@),
{
    let ghost orig = h.deep_view();
    let mut i: usize = 0;
    while i < h.len()
        invariant
            i <= h.len(),
            h.deep_view() == orig,
            forall|j: int| 0 <= j < i ==> spec_lower(orig[j].0) != key@,
        decreases h.len() - i,
    {
        let lname = ascii_lower(h[i].0.as_str());
        if lname == key {
            h[i] = (key, value);
            proof {
                lemma_header_insert_replace_at(orig, key@, value@, i as int);
                assert(h.deep_view() =~= orig.update(i as int, (key@, value@)));
            }
            return ;
        }
        i += 1;
    }
    h.push((key, value));
    proof {
        lemma_header_insert_append(orig, key@, value@);
        assert(h.deep_view() =~= orig.push((key@, value@)));
    }
}

/// The value of the first header whose lowercased name is `name` (already
/// lowercase), if any.
pub open spec fn spec_header_lookup(h: HeaderSeq, name: Seq<char>) -> Option<Seq<char>>
    decreases h.len(),
{
    if h.len() == 0 {
        None
    } else if spec_lower(h[0].0) == name {
        Some(h[0].1)
    } else {
        spec_header_lookup(h.subrange(1, h.len() as int), name)
    }
}

proof fn lemma_header_lookup_at(h: HeaderSeq, name: Seq<char>, j: int)
    requires
        0 <= j < h.len(),
        spec_lower(h[j].0) == name,
        forall|i: int| 0 <= i < j ==> spec_lower(h[i].0) != name,
    ensures
        spec_header_lookup(h, name) == Some(h[j].1),
    decreases j,
{
    if j > 0 {
        lemma_header_lookup_at(h.subrange(1, h.len() as int), name, j - 1);
    }
}

proof fn lemma_header_lookup_none(h: HeaderSeq, name: Seq<char>)
    requires
        forall|i: int| 0 <= i < h.len() ==> spec_lower(h[i].0) != name,
    ensures
        spec_header_lookup(h, name) == None::<Seq<char>>,
    decreases h.len(),
{
    if h.len() > 0 {
        lemma_header_lookup_none(h.subrange(1, h.len() as int), name);
    }
}

/// The effective content type of a header list: the `content-type` value up
/// to (not including) the first `;`, if that header is present.
pub open spec fn spec_get_content_type(h: HeaderSeq) -> Option<Seq<char>> {
    match spec_header_lookup(h, "content-type"@) {
        None => None,
        Some(v) => {
            let cut = spec_find_char(v, ';');
            if cut < 0 {
                Some(v)
            } else {
                Some(v.subrange(0, cut))
            }
        },
    }
}

/// The content type a header list declares, cut at the first `;`.
#[verifier::loop_isolation(false)]
pub fn get_content_type(headers: &Vec<(String, String)>) -> (r: Option<String>)
    ensures
        match r {
            Some(s) => spec_get_content_type(headers.deep_view()) == Some(s@),
            None => spec_get_content_type(headers.deep_view()) == None::<Seq<char>>,
        },
{
    let ghost hm = headers.deep_view();
    let ct_name = String::from_str("content-type");
    let mut i: usize = 0;
    while i < headers.len()
        invariant
            i <= headers.len(),
            ct_name@ == "content-type"@,
            forall|j: int| 0 <= j < i ==> spec_lower(hm[j].0) != "content-type"@,
        decreases headers.len() - i,
    {
        let lname = ascii_lower(headers[i].0.as_str());
        if lname == ct_name {
            proof {
                lemma_header_lookup_at(hm, "content-type"@, i as int);
            }
            let v = headers[i].1.as_str();
            match find_char_at(v, ';') {
                None => {
                    return Some(v.to_owned());
                },
                Some(cut) => {
                    return Some(v.substring_char(0, cut).to_owned());
                },
            }
        }
        i += 1;
    }
    proof {
        lemma_header_lookup_none(hm, "content-type"@);
    }
    None
}

/// A header list with `content-type` defaulted to `application/json` when
/// absent.
pub open spec fn spec_with_default_ct(h: HeaderSeq) -> HeaderSeq {
    if spec_header_lookup(h, "content-type"@) is Some {
        h
    } else {
        h.push(("content-type"@, "application/json"@))
    }
}

/// Header overrides applied in order; the first illegal name or value stops
/// the merge.
pub open spec fn spec_apply_header_overrides(h: HeaderSeq, ov: HeaderSeq) -> Result<
    HeaderSeq,
    ErrVal,
>
    decreases ov.len(),
{
    if ov.len() == 0 {
        Ok(h)
    } else if !spec_hname_valid(ov[0].0) {
        Err(ErrVal::InvalidHeaderName(ov[0].0))
    } else if !spec_hvalue_valid(ov[0].1) {
        Err(ErrVal::InvalidHeaderValue(ov[0].0))
    } else {
        spec_apply_header_overrides(
            spec_header_insert(h, spec_lower(ov[0].0), ov[0].1),
            ov.subrange(1, ov.len() as int),
        )
    }
}

/// Query overrides applied in order: each override stores its value as a
/// JSON string under its key.
pub open spec fn spec_apply_query(
    q: Seq<(Seq<char>, JsonVal)>,
    ov: HeaderSeq,
) -> Seq<(Seq<char>, JsonVal)>
    decreases ov.len(),
{
    if ov.len() == 0 {
        q
    } else {
        spec_apply_query(
            spec_obj_insert(q, ov[0].0, JsonVal::Text(ov[0].1)),
            ov.subrange(1, ov.len() as int),
        )
    }
}

/// Body overrides applied in order: each value is parsed as JSON before
/// insertion, so an override can carry a number, a bool or a nested value;
/// the first value that is not JSON stops the merge, naming its key.
pub open spec fn spec_apply_body(b: Seq<(Seq<char>, JsonVal)>, ov: HeaderSeq) -> Result<
    Seq<(Seq<char>, JsonVal)>,
    ErrVal,
>
    decreases ov.len(),
{
    if ov.len() == 0 {
        Ok(b)
    } else {
        match json_parse_of(ov[0].1) {
            None => Err(ErrVal::MalformedOverride(ov[0].0)),
            Some(v) => spec_apply_body(
                spec_obj_insert(b, ov[0].0, v.deep()),
                ov.subrange(1, ov.len() as int),
            ),
        }
    }
}

/// The form encoding's view of a body object: each field as a string pair —
/// text as itself, a number as its token, booleans as `true`/`false`. A
/// null, array or object field cannot be form encoded and stops the merge,
/// naming its key.
pub open spec fn spec_body_pairs(b: Seq<(Seq<char>, JsonVal)>) -> Result<HeaderSeq, ErrVal>
    decreases b.len(),
{
    if b.len() == 0 {
        Ok(Seq::empty())
    } else {
        let scalar = match b[0].1 {
            JsonVal::Text(s) => Ok(s),
            JsonVal::Number(s) => Ok(s),
            JsonVal::Bool(x) => Ok(if x { "true"@ } else { "false"@ }),
            _ => Err(ErrVal::NotEncodable(b[0].0)),
        };
        match scalar {
            Err(e) => Err(e),
            Ok(s) => match spec_body_pairs(b.subrange(1, b.len() as int)) {
                Err(e) => Err(e),
                Ok(rest) => Ok(seq![(b[0].0, s)] + rest),
            },
        }
    }
}

/// The entries of a JSON object; anything else reads as the empty object.
pub open spec fn spec_obj_entries(v: JsonVal) -> Seq<(Seq<char>, JsonVal)> {
    match v {
        JsonVal::Object(m) => m,
        _ => Seq::empty(),
    }
}

/// A decimal digit as its character.
pub open spec fn spec_digit_char(n: int) -> char {
    if n == 0 { '0' } else if n == 1 { '1' } else if n == 2 { '2' } else if n == 3 { '3' }
    else if n == 4 { '4' } else if n == 5 { '5' } else if n == 6 { '6' } else if n == 7 { '7' }
    else if n == 8 { '8' } else { '9' }
}

/// The decimal digits of a non-negative number, most significant first.
pub open spec fn spec_dec_digits(n: int) -> Seq<char>
    decreases n,
{
    if n < 10 {
        seq![spec_digit_char(n)]
    } else {
        spec_dec_digits(n / 10).push(spec_digit_char(n % 10))
    }
}

fn digit_char(n: usize) -> (r: char)
    requires
        n < 10,
    ensures
        r == spec_digit_char(n as int),
{
    if n == 0 { '0' } else if n == 1 { '1' } else if n == 2 { '2' } else if n == 3 { '3' }
    else if n == 4 { '4' } else if n == 5 { '5' } else if n == 6 { '6' } else if n == 7 { '7' }
    else if n == 8 { '8' } else { '9' }
}

fn dec_digits(n: usize) -> (r: String)
    ensures
        r@ == spec_dec_digits(n as int),
    decreases n,
{
    if n < 10 {
        let mut out = String::new();
        crate::text::push_char(&mut out, digit_char(n));
        proof {
            assert(out@ =~= spec_dec_digits(n as int));
        }
        out
    } else {
        let mut out = dec_digits(n / 10);
        crate::text::push_char(&mut out, digit_char(n % 10));
        out
    }
}

/// A nested field's query key: the outer key with the inner one in
/// brackets.
pub open spec fn spec_bracket(key: Seq<char>, inner: Seq<char>) -> Seq<char> {
    key + "["@ + inner + "]"@
}

fn bracket(key: &str, inner: &str) -> (r: String)
    ensures
        r@ == spec_bracket(key@, inner@),
{
    let mut out = key.to_owned();
    out.append("[");
    out.append(inner);
    out.append("]");
    out
}

/// The query-string pairs one field flattens to, bracket-keyed as nesting
/// deepens: a scalar is one pair under its key — text as itself, a number
/// as its token, booleans as `true`/`false`, null as the empty value; an
/// object's fields and an array's elements recurse under `key[name]` and
/// `key[index]`.
pub open spec fn spec_value_pairs(key: Seq<char>, v: JsonVal) -> HeaderSeq
    decreases v,
{
    match v {
        JsonVal::Null => seq![(key, Seq::empty())],
        JsonVal::Bool(b) => seq![(key, if b { "true"@ } else { "false"@ })],
        JsonVal::Number(s) => seq![(key, s)],
        JsonVal::Text(s) => seq![(key, s)],
        JsonVal::Array(a) => spec_arr_value_pairs(key, a),
        JsonVal::Object(m) => spec_obj_value_pairs(key, m),
    }
}

/// The pairs of an array's elements, in element order.
pub open spec fn spec_arr_value_pairs(key: Seq<char>, s: Seq<JsonVal>) -> HeaderSeq
    decreases s,
{
    if s.len() == 0 {
        Seq::empty()
    } else {
        spec_arr_value_pairs(key, s.subrange(0, s.len() - 1)) + spec_value_pairs(
            spec_bracket(key, spec_dec_digits(s.len() - 1)),
            s[s.len() - 1],
        )
    }
}

/// The pairs of an object's fields, in entry order.
pub open spec fn spec_obj_value_pairs(key: Seq<char>, m: Seq<(Seq<char>, JsonVal)>) -> HeaderSeq
    decreases m,
{
    if m.len() == 0 {
        Seq::empty()
    } else {
        spec_obj_value_pairs(key, m.subrange(0, m.len() - 1)) + spec_value_pairs(
            spec_bracket(key, m[m.len() - 1].0),
            m[m.len() - 1].1,
        )
    }
}

/// The whole query object as string pairs: each top-level entry flattened
/// under its own key, in entry order.
pub open spec fn spec_query_pairs(entries: Seq<(Seq<char>, JsonVal)>) -> HeaderSeq
    decreases entries,
{
    if entries.len() == 0 {
        Seq::empty()
    } else {
        spec_query_pairs(entries.subrange(0, entries.len() - 1)) + spec_value_pairs(
            entries[entries.len() - 1].0,
            entries[entries.len() - 1].1,
        )
    }
}

/// Appends the flattened pairs of one field.
#[verifier::loop_isolation(false)]
fn value_pairs(key: &str, v: &JsonValue, out: &mut Vec<(String, String)>)
    ensures
        final(out).deep_view() == old(out).deep_view() + spec_value_pairs(key@, v.deep()),
    decreases *v,
{
    broadcast use crate::json::lemma_deep_arr, crate::json::lemma_deep_obj;

    let ghost base = out.deep_view();
    match v {
        JsonValue::Null => {
            out.push((key.to_owned(), String::new()));
            proof {
                assert(out.deep_view() =~= base + spec_value_pairs(key@, v.deep()));
            }
        },
        JsonValue::Bool(b) => {
            let t = if *b {
                String::from_str("true")
            } else {
                String::from_str("false")
            };
            out.push((key.to_owned(), t));
            proof {
                assert(out.deep_view() =~= base + spec_value_pairs(key@, v.deep()));
            }
        },
        JsonValue::Number(sv) => {
            out.push((key.to_owned(), sv.clone()));
            proof {
                assert(out.deep_view() =~= base + spec_value_pairs(key@, v.deep()));
            }
        },
        JsonValue::Text(sv) => {
            out.push((key.to_owned(), sv.clone()));
            proof {
                assert(out.deep_view() =~= base + spec_value_pairs(key@, v.deep()));
            }
        },
        JsonValue::Array(a) => {
            let ghost da = crate::json::deep_arr(a@);
            let mut i: usize = 0;
            proof {
                assert(da.subrange(0, 0) =~= Seq::<JsonVal>::empty());
                assert(base + spec_arr_value_pairs(key@, da.subrange(0, 0)) =~= base);
            }
            while i < a.len()
                invariant
                    i <= a.len(),
                    out.deep_view() == base + spec_arr_value_pairs(key@, da.subrange(0, i as int)),
                decreases a.len() - i,
            {
                proof {
                    assert(decreases_to!(*v => *a));
                    assert(decreases_to!(*a => a@));
                    assert(decreases_to!(a@ => a@[i as int]));
                }
                let idx = dec_digits(i);
                let bk = bracket(key, idx.as_str());
                value_pairs(bk.as_str(), &a[i], out);
                proof {
                    assert(da.subrange(0, i + 1).subrange(0, i as int) =~= da.subrange(
                        0,
                        i as int,
                    ));
                    assert(out.deep_view() =~= base + spec_arr_value_pairs(
                        key@,
                        da.subrange(0, i + 1),
                    ));
                }
                i += 1;
            }
            proof {
                assert(da.subrange(0, a.len() as int) =~= da);
            }
        },
        JsonValue::Object(m) => {
            let ghost dm = deep_obj(m@);
            let mut i: usize = 0;
            proof {
                assert(dm.subrange(0, 0) =~= Seq::<(Seq<char>, JsonVal)>::empty());
                assert(base + spec_obj_value_pairs(key@, dm.subrange(0, 0)) =~= base);
            }
            while i < m.len()
                invariant
                    i <= m.len(),
                    out.deep_view() == base + spec_obj_value_pairs(key@, dm.subrange(0, i as int)),
                decreases m.len() - i,
            {
                proof {
                    assert(decreases_to!(*v => *m));
                    assert(decreases_to!(*m => m@));
                    assert(decreases_to!(m@ => m@[i as int]));
                    assert(decreases_to!(m@[i as int] => m@[i as int].1));
                }
                let bk = bracket(key, m[i].0.as_str());
                value_pairs(bk.as_str(), &m[i].1, out);
                proof {
                    assert(dm.subrange(0, i + 1).subrange(0, i as int) =~= dm.subrange(
                        0,
                        i as int,
                    ));
                    assert(out.deep_view() =~= base + spec_obj_value_pairs(
                        key@,
                        dm.subrange(0, i + 1),
                    ));
                }
                i += 1;
            }
            proof {
                assert(dm.subrange(0, m.len() as int) =~= dm);
            }
        },
    }
}

/// Flattens the merged query object into bracket-keyed string pairs.
#[verifier::loop_isolation(false)]
fn query_pairs(entries: &Vec<(String, JsonValue)>) -> (r: Vec<(String, String)>)
    ensures
        r.deep_view() == spec_query_pairs(deep_obj(entries@)),
{
    broadcast use crate::json::lemma_deep_obj;

    let ghost qm = deep_obj(entries@);
    let mut out: Vec<(String, String)> = Vec::new();
    let mut i: usize = 0;
    proof {
        assert(qm.subrange(0, 0) =~= Seq::<(Seq<char>, JsonVal)>::empty());
        assert(out.deep_view() =~= spec_query_pairs(qm.subrange(0, 0)));
    }
    while i < entries.len()
        invariant
            i <= entries.len(),
            out.deep_view() == spec_query_pairs(qm.subrange(0, i as int)),
        decreases entries.len() - i,
    {
        value_pairs(entries[i].0.as_str(), &entries[i].1, &mut out);
        proof {
            assert(qm.subrange(0, i + 1).subrange(0, i as int) =~= qm.subrange(0, i as int));
            assert(out.deep_view() =~= spec_query_pairs(qm.subrange(0, i + 1)));
        }
        i += 1;
    }
    proof {
        assert(qm.subrange(0, entries.len() as int) =~= qm);
    }
    out
}

/// A reusable template for one HTTP call: the verb, the base URL, and the
/// default query object, header list and body object that overrides are
/// merged into. Construct once, share read-only; the merge works on copies.
#[derive(Debug)]
pub struct RequestProfile {
    pub method: String,
    pub url: String,
    pub params: Option<JsonValue>,
    pub headers: Vec<(String, String)>,
    pub body: Option<JsonValue>,
}

/// The default query and body, when present, must be JSON objects.
impl RequestProfile {
    pub open spec fn wf(self) -> bool {
        &&& (self.params matches Some(v) ==> v is Object)
        &&& (self.body matches Some(v) ==> v is Object)
    }

    pub fn new(
        method: String,
        url: String,
        params: Option<JsonValue>,
        headers: Vec<(String, String)>,
        body: Option<JsonValue>,
    ) -> (r: Self)
        ensures
            r.method == method,
            r.url == url,
            r.params == params,
            r.headers == headers,
            r.body == body,
    {
        RequestProfile { method, url, params, headers, body }
    }
}

/// The default entries a merge starts from: the profile's object's entries,
/// or none.
pub open spec fn spec_default_entries(v: Option<JsonValue>) -> Seq<(Seq<char>, JsonVal)> {
    match v {
        Some(j) => spec_obj_entries(j.deep()),
        None => Seq::empty(),
    }
}

/// The whole merge: header overrides applied (first illegal one stops it),
/// `content-type` defaulted to `application/json`, query and body overrides
/// applied (the first body value that is not JSON stops it), and the body
/// object encoded as the effective content type directs — JSON text for
/// `application/json`, form encoding for `application/x-www-form-urlencoded`
/// and `multipart/form-data`, an error for anything else.
pub open spec fn spec_generate(p: RequestProfile, args: ExtraArgs) -> Result<
    (HeaderSeq, JsonVal, Seq<char>),
    ErrVal,
> {
    match spec_apply_header_overrides(p.headers.deep_view(), args.headers.deep_view()) {
        Err(e) => Err(e),
        Ok(h1) => {
            let h = spec_with_default_ct(h1);
            let q = spec_apply_query(spec_default_entries(p.params), args.query.deep_view());
            match spec_apply_body(spec_default_entries(p.body), args.body.deep_view()) {
                Err(e) => Err(e),
                Ok(b) => match spec_get_content_type(h) {
                    None => Err(ErrVal::UnsupportedContentType(Seq::empty())),
                    Some(t) => if t == "application/json"@ {
                        Ok((h, JsonVal::Object(q), spec_json_text(JsonVal::Object(b))))
                    } else if t == "application/x-www-form-urlencoded"@ || t
                        == "multipart/form-data"@ {
                        match spec_body_pairs(b) {
                            Err(e) => Err(e),
                            Ok(pairs) => Ok((h, JsonVal::Object(q), form_encoded_of(pairs))),
                        }
                    } else {
                        Err(ErrVal::UnsupportedContentType(t))
                    },
                },
            }
        },
    }
}

/// Copies the entries of a profile's default object.
#[verifier::loop_isolation(false)]
fn default_entries_dup(v: &Option<JsonValue>) -> (r: Vec<(String, JsonValue)>)
    ensures
        deep_obj(r@) == spec_default_entries(*v),
{
    broadcast use crate::json::lemma_deep_obj;

    match v {
        Some(JsonValue::Object(m)) => {
            let mut out: Vec<(String, JsonValue)> = Vec::new();
            let mut i: usize = 0;
            while i < m.len()
                invariant
                    i <= m.len(),
                    out@.len() == i,
                    forall|j: int| 0 <= j < i ==> out@[j].0@ == m@[j].0@ && out@[j].1.deep()
                        == m@[j].1.deep(),
                decreases m.len() - i,
            {
                let key = m[i].0.clone();
                let val = m[i].1.duplicate();
                out.push((key, val));
                i += 1;
            }
            proof {
                assert(deep_obj(out@) =~= deep_obj(m@));
            }
            out
        },
        _ => {
            let out: Vec<(String, JsonValue)> = Vec::new();
            proof {
                assert(deep_obj(out@) =~= Seq::<(Seq<char>, JsonVal)>::empty());
            }
            out
        },
    }
}

/// Renders a body object as form-encoding string pairs, in entry order;
/// fails on the first field no form encoding can carry.
#[verifier::loop_isolation(false)]
fn body_pairs(entries: &Vec<(String, JsonValue)>) -> (r: Result<Vec<(String, String)>, Error>)
    ensures
        match r {
            Ok(pairs) => spec_body_pairs(deep_obj(entries@)) == Ok::<HeaderSeq, ErrVal>(
                pairs.deep_view(),
            ),
            Err(e) => spec_body_pairs(deep_obj(entries@)) == Err::<HeaderSeq, ErrVal>(e.deep()),
        },
{
    broadcast use crate::json::lemma_deep_obj;

    let ghost bm = deep_obj(entries@);
    let mut out: Vec<(String, String)> = Vec::new();
    let mut i: usize = 0;
    proof {
        assert(bm.subrange(0, bm.len() as int) =~= bm);
        assert(out.deep_view() =~= Seq::<(Seq<char>, Seq<char>)>::empty());
        match spec_body_pairs(bm) {
            Ok(rest) => {
                assert(out.deep_view() + rest =~= rest);
            },
            Err(_) => {},
        }
    }
    while i < entries.len()
        invariant
            i <= entries.len(),
            spec_body_pairs(bm) == (match spec_body_pairs(bm.subrange(i as int, bm.len() as int)) {
                Ok(rest) => Ok::<HeaderSeq, ErrVal>(out.deep_view() + rest),
                Err(e) => Err::<HeaderSeq, ErrVal>(e),
            }),
        decreases entries.len() - i,
    {
        let ghost rem = bm.subrange(i as int, bm.len() as int);
        proof {
            assert(rem[0] == bm[i as int]);
            assert(rem.subrange(1, rem.len() as int) =~= bm.subrange(i + 1, bm.len() as int));
        }
        let scalar: String = match &entries[i].1 {
            JsonValue::Text(s) => s.clone(),
            JsonValue::Number(s) => s.clone(),
            JsonValue::Bool(x) => {
                if *x {
                    String::from_str("true")
                } else {
                    String::from_str("false")
                }
            },
            _ => {
                return Err(Error::NotEncodable(entries[i].0.clone()));
            },
        };
        let key = entries[i].0.clone();
        let ghost prev = out.deep_view();
        let ghost sc = scalar@;
        out.push((key, scalar));
        proof {
            assert(out.deep_view() =~= prev.push((bm[i as int].0, sc)));
            match spec_body_pairs(bm.subrange(i + 1, bm.len() as int)) {
                Ok(rest2) => {
                    assert((prev + (seq![(bm[i as int].0, sc)] + rest2)) =~= (out.deep_view()
                        + rest2));
                },
                Err(_) => {},
            }
        }
        i += 1;
    }
    proof {
        assert(bm.subrange(bm.len() as int, bm.len() as int) =~= Seq::<
            (Seq<char>, JsonVal),
        >::empty());
        assert(out.deep_view() + Seq::<(Seq<char>, Seq<char>)>::empty() =~= out.deep_view());
    }
    Ok(out)
}

impl RequestProfile {
    /// The pure merge: the final header list, query object and encoded body
    /// this profile and override set produce, or the first error the merge
    /// hits. Callable on its own for inspection; no request is sent.
    #[verifier::loop_isolation(false)]
    pub fn generate(&self, args: &ExtraArgs) -> (r: Result<
        (Vec<(String, String)>, JsonValue, String),
        Error,
    >)
        ensures
            match r {
                Ok(t) => spec_generate(*self, *args) == Ok::<_, ErrVal>(
                    (t.0.deep_view(), t.1.deep(), t.2@),
                ),
                Err(e) => spec_generate(*self, *args) == Err::<
                    (HeaderSeq, JsonVal, Seq<char>),
                    ErrVal,
                >(e.deep()),
            },
    {
        broadcast use crate::json::lemma_deep_obj;

        let ghost h0 = self.headers.deep_view();
        let ghost hov = args.headers.deep_view();
        let mut headers = dup_pairs(&self.headers);
        let mut i: usize = 0;
        proof {
            assert(hov.subrange(0, hov.len() as int) =~= hov);
        }
        while i < args.headers.len()
            invariant
                i <= args.headers.len(),
                spec_apply_header_overrides(h0, hov) == spec_apply_header_overrides(
                    headers.deep_view(),
                    hov.subrange(i as int, hov.len() as int),
                ),
            decreases args.headers.len() - i,
        {
            let ghost rem = hov.subrange(i as int, hov.len() as int);
            proof {
                assert(rem[0] == hov[i as int]);
                assert(rem.subrange(1, rem.len() as int) =~= hov.subrange(
                    i + 1,
                    hov.len() as int,
                ));
            }
            let k = &args.headers[i].0;
            let v = &args.headers[i].1;
            if !hname_valid(k.as_str()) {
                return Err(Error::InvalidHeaderName(k.clone()));
            }
            if !hvalue_valid(v.as_str()) {
                return Err(Error::InvalidHeaderValue(k.clone()));
            }
            let lk = ascii_lower(k.as_str());
            header_insert(&mut headers, lk, v.clone());
            i += 1;
        }
        proof {
            assert(hov.subrange(hov.len() as int, hov.len() as int) =~= Seq::<
                (Seq<char>, Seq<char>),
            >::empty());
        }
        let ghost h1 = headers.deep_view();
        if get_content_type(&headers).is_none() {
            headers.push((String::from_str("content-type"), String::from_str("application/json")));
            proof {
                assert(headers.deep_view() =~= h1.push(("content-type"@, "application/json"@)));
            }
        }
        let ghost hfin = headers.deep_view();
        proof {
            assert(hfin == spec_with_default_ct(h1));
        }
        let ghost q0 = spec_default_entries(self.params);
        let ghost qov = args.query.deep_view();
        let mut query = default_entries_dup(&self.params);
        let mut i: usize = 0;
        proof {
            assert(qov.subrange(0, qov.len() as int) =~= qov);
        }
        while i < args.query.len()
            invariant
                i <= args.query.len(),
                spec_apply_query(q0, qov) == spec_apply_query(
                    deep_obj(query@),
                    qov.subrange(i as int, qov.len() as int),
                ),
            decreases args.query.len() - i,
        {
            let ghost rem = qov.subrange(i as int, qov.len() as int);
            proof {
                assert(rem[0] == qov[i as int]);
                assert(rem.subrange(1, rem.len() as int) =~= qov.subrange(
                    i + 1,
                    qov.len() as int,
                ));
            }
            let k = args.query[i].0.clone();
            let v = args.query[i].1.clone();
            obj_insert(&mut query, k, JsonValue::Text(v));
            i += 1;
        }
        proof {
            assert(qov.subrange(qov.len() as int, qov.len() as int) =~= Seq::<
                (Seq<char>, Seq<char>),
            >::empty());
        }
        let ghost b0 = spec_default_entries(self.body);
        let ghost bov = args.body.deep_view();
        let mut body = default_entries_dup(&self.body);
        let mut i: usize = 0;
        proof {
            assert(bov.subrange(0, bov.len() as int) =~= bov);
        }
        while i < args.body.len()
            invariant
                i <= args.body.len(),
                spec_apply_body(b0, bov) == spec_apply_body(
                    deep_obj(body@),
                    bov.subrange(i as int, bov.len() as int),
                ),
            decreases args.body.len() - i,
        {
            let ghost rem = bov.subrange(i as int, bov.len() as int);
            proof {
                assert(rem[0] == bov[i as int]);
                assert(rem.subrange(1, rem.len() as int) =~= bov.subrange(
                    i + 1,
                    bov.len() as int,
                ));
            }
            let k = args.body[i].0.clone();
            match parse_json(args.body[i].1.as_str()) {
                None => {
                    return Err(Error::MalformedOverride(k));
                },
                Some(j) => {
                    obj_insert(&mut body, k, j);
                },
            }
            i += 1;
        }
        proof {
            assert(bov.subrange(bov.len() as int, bov.len() as int) =~= Seq::<
                (Seq<char>, Seq<char>),
            >::empty());
        }
        match get_content_type(&headers) {
            None => Err(Error::UnsupportedContentType(String::new())),
            Some(ct) => {
                if ct == String::from_str("application/json") {
                    let body_obj = JsonValue::Object(body);
                    let text = body_obj.to_json_text();
                    Ok((headers, JsonValue::Object(query), text))
                } else if ct == String::from_str("application/x-www-form-urlencoded") || ct
                    == String::from_str("multipart/form-data") {
                    match body_pairs(&body) {
                        Err(e) => Err(e),
                        Ok(pairs) => {
                            let text = form_encode(&pairs);
                            Ok((headers, JsonValue::Object(query), text))
                        },
                    }
                } else {
                    Err(Error::UnsupportedContentType(ct))
                }
            },
        }
    }

    /// The URL this profile and override set would call: the base URL with
    /// the merged query object flattened to bracket-keyed pairs and
    /// form-encoded into its query string, or the base URL alone when the
    /// merged query is empty.
    pub fn get_url(&self, args: &ExtraArgs) -> (r: Result<String, Error>)
        ensures
            match r {
                Ok(u) => spec_get_url(*self, *args) == Ok::<Seq<char>, ErrVal>(u@),
                Err(e) => spec_get_url(*self, *args) == Err::<Seq<char>, ErrVal>(e.deep()),
            },
    {
        let generated = self.generate(args);
        match generated {
            Err(e) => Err(e),
            Ok((_h, q, _b)) => {
                let entries = match q {
                    JsonValue::Object(m) => m,
                    _ => Vec::new(),
                };
                if entries.len() == 0 {
                    proof {
                        crate::json::lemma_deep_obj(entries@);
                    }
                    match url_normalized(self.url.as_str()) {
                        Some(u) => Ok(u),
                        None => Err(Error::InvalidUrl(self.url.clone())),
                    }
                } else {
                    proof {
                        crate::json::lemma_deep_obj(entries@);
                    }
                    let pairs = query_pairs(&entries);
                    let qs = form_encode(&pairs);
                    match url_with_query(self.url.as_str(), qs.as_str()) {
                        Some(u) => Ok(u),
                        None => Err(Error::InvalidUrl(self.url.clone())),
                    }
                }
            },
        }
    }

    /// A GET profile read off a URL: the query pairs move into the default
    /// query object — each value parsed as JSON — and the URL keeps
    /// everything but the query.
    #[verifier::loop_isolation(false)]
    pub fn from_url(s: &str) -> (r: Result<RequestProfile, Error>)
        ensures
            match r {
                Ok(p) => {
                    &&& url_parse_ok(s@)
                    &&& p.method@ == "GET"@
                    &&& p.url@ == url_split_of(s@).0
                    &&& (p.params matches Some(v) && v is Object && spec_apply_body(
                        Seq::empty(),
                        url_split_of(s@).1,
                    ) == Ok::<Seq<(Seq<char>, JsonVal)>, ErrVal>(spec_obj_entries(v.deep())))
                    &&& p.headers@.len() == 0
                    &&& p.body is None
                    &&& p.valid()
                },
                Err(e) => !url_parse_ok(s@) && e.deep() == ErrVal::InvalidUrl(s@)
                    || url_parse_ok(s@) && spec_apply_body(Seq::empty(), url_split_of(s@).1)
                    == Err::<Seq<(Seq<char>, JsonVal)>, ErrVal>(e.deep()),
            },
    {
        broadcast use crate::json::lemma_deep_obj;

        match url_split(s) {
            None => Err(Error::InvalidUrl(s.to_owned())),
            Some((base, qpairs)) => {
                let ghost pv = qpairs.deep_view();
                let mut params: Vec<(String, JsonValue)> = Vec::new();
                proof {
                    assert(deep_obj(params@) =~= Seq::<(Seq<char>, JsonVal)>::empty());
                }
                let mut i: usize = 0;
                proof {
                    assert(pv.subrange(0, pv.len() as int) =~= pv);
                }
                while i < qpairs.len()
                    invariant
                        i <= qpairs.len(),
                        spec_apply_body(Seq::empty(), pv) == spec_apply_body(
                            deep_obj(params@),
                            pv.subrange(i as int, pv.len() as int),
                        ),
                    decreases qpairs.len() - i,
                {
                    let ghost rem = pv.subrange(i as int, pv.len() as int);
                    proof {
                        assert(rem[0] == pv[i as int]);
                        assert(rem.subrange(1, rem.len() as int) =~= pv.subrange(
                            i + 1,
                            pv.len() as int,
                        ));
                    }
                    let k = qpairs[i].0.clone();
                    match parse_json(qpairs[i].1.as_str()) {
                        None => {
                            return Err(Error::MalformedOverride(k));
                        },
                        Some(j) => {
                            obj_insert(&mut params, k, j);
                        },
                    }
                    i += 1;
                }
                proof {
                    assert(pv.subrange(pv.len() as int, pv.len() as int) =~= Seq::<
                        (Seq<char>, Seq<char>),
                    >::empty());
                }
                Ok(
                    RequestProfile {
                        method: String::from_str("GET"),
                        url: base,
                        params: Some(JsonValue::Object(params)),
                        headers: Vec::new(),
                        body: None,
                    },
                )
            },
        }
    }
}

/// The URL `get_url` computes, as mathematics.
pub open spec fn spec_get_url(p: RequestProfile, args: ExtraArgs) -> Result<Seq<char>, ErrVal> {
    match spec_generate(p, args) {
        Err(e) => Err(e),
        Ok(t) => {
            let q = spec_obj_entries(t.1);
            if !url_parse_ok(p.url@) {
                Err(ErrVal::InvalidUrl(p.url@))
            } else if q.len() == 0 {
                Ok(url_norm_of(p.url@))
            } else {
                Ok(url_with_query_of(p.url@, form_encoded_of(spec_query_pairs(q))))
            }
        },
    }
}

/// Merging is deterministic: one template and one override set allow only
/// one merge result, so two runs of `generate` agree byte for byte on the
/// final headers, query and encoded body.
pub proof fn lemma_merge_deterministic(
    p: RequestProfile,
    args: ExtraArgs,
    r1: Result<(HeaderSeq, JsonVal, Seq<char>), ErrVal>,
    r2: Result<(HeaderSeq, JsonVal, Seq<char>), ErrVal>,
)
    requires
        r1 == spec_generate(p, args),
        r2 == spec_generate(p, args),
    ensures
        r1 == r2,
{
}

/// The value of the last body override carrying `key`.
pub open spec fn spec_last_value(ov: HeaderSeq, key: Seq<char>) -> Seq<char>
    decreases ov.len(),
{
    if ov.len() == 0 {
        Seq::empty()
    } else if ov.last().0 == key {
        ov.last().1
    } else {
        spec_last_value(ov.drop_last(), key)
    }
}

proof fn lemma_apply_body_no_key(
    b: Seq<(Seq<char>, JsonVal)>,
    ov: HeaderSeq,
    key: Seq<char>,
    res: Seq<(Seq<char>, JsonVal)>,
)
    requires
        forall|j: int| 0 <= j < ov.len() ==> (#[trigger] ov[j]).0 != key,
        spec_apply_body(b, ov) == Ok::<Seq<(Seq<char>, JsonVal)>, ErrVal>(res),
    ensures
        crate::json::spec_obj_get(res, key) == crate::json::spec_obj_get(b, key),
    decreases ov.len(),
{
    if ov.len() > 0 {
        let v0 = json_parse_of(ov[0].1)->Some_0;
        crate::json::lemma_obj_get_insert_other(b, ov[0].0, v0.deep(), key);
        lemma_apply_body_no_key(
            spec_obj_insert(b, ov[0].0, v0.deep()),
            ov.subrange(1, ov.len() as int),
            key,
            res,
        );
    }
}

proof fn lemma_last_value_head(ov: HeaderSeq, key: Seq<char>)
    requires
        ov.len() > 0,
        ov[0].0 == key,
        forall|j: int| 1 <= j < ov.len() ==> (#[trigger] ov[j]).0 != key,
    ensures
        spec_last_value(ov, key) == ov[0].1,
    decreases ov.len(),
{
    if ov.len() > 1 {
        lemma_last_value_head(ov.drop_last(), key);
    }
}

proof fn lemma_last_value_tail(ov: HeaderSeq, key: Seq<char>)
    requires
        ov.len() > 0,
        exists|j: int| 1 <= j < ov.len() && (#[trigger] ov[j]).0 == key,
    ensures
        spec_last_value(ov, key) == spec_last_value(ov.subrange(1, ov.len() as int), key),
    decreases ov.len(),
{
    let tail = ov.subrange(1, ov.len() as int);
    if ov.last().0 == key {
        assert(tail.last() == ov.last());
    } else {
        let j = choose|j: int| 1 <= j < ov.len() && (#[trigger] ov[j]).0 == key;
        assert(j < ov.len() - 1);
        assert(ov.drop_last()[j] == ov[j]);
        lemma_last_value_tail(ov.drop_last(), key);
        assert(ov.drop_last().subrange(1, ov.len() - 1) =~= tail.drop_last());
        assert(tail.last() == ov.last());
    }
}

/// Override precedence: when a key stands in the body overrides — whether or
/// not the template's default body also carries it — the final body holds
/// the parsed value of the last override carrying that key: the override
/// wins over the default.
pub proof fn lemma_body_override_precedence(
    b: Seq<(Seq<char>, JsonVal)>,
    ov: HeaderSeq,
    key: Seq<char>,
    res: Seq<(Seq<char>, JsonVal)>,
)
    requires
        exists|j: int| 0 <= j < ov.len() && (#[trigger] ov[j]).0 == key,
        spec_apply_body(b, ov) == Ok::<Seq<(Seq<char>, JsonVal)>, ErrVal>(res),
    ensures
        json_parse_of(spec_last_value(ov, key)) matches Some(v) && crate::json::spec_obj_get(
            res,
            key,
        ) == v.deep(),
    decreases ov.len(),
{
    let v0 = json_parse_of(ov[0].1)->Some_0;
    let b1 = spec_obj_insert(b, ov[0].0, v0.deep());
    let tail = ov.subrange(1, ov.len() as int);
    if exists|j: int| 1 <= j < ov.len() && (#[trigger] ov[j]).0 == key {
        let j = choose|j: int| 1 <= j < ov.len() && (#[trigger] ov[j]).0 == key;
        assert(tail[j - 1] == ov[j]);
        lemma_body_override_precedence(b1, tail, key, res);
        lemma_last_value_tail(ov, key);
    } else {
        assert(ov[0].0 == key);
        crate::json::lemma_obj_get_insert_same(b, key, v0.deep());
        lemma_apply_body_no_key(b1, tail, key, res);
        lemma_last_value_head(ov, key);
    }
}

/// The first validation error a profile reports: a non-object default
/// query, then a non-object default body, then an unparseable URL.
pub open spec fn spec_validate_err(p: RequestProfile) -> ErrVal {
    if !(p.params matches Some(v) ==> v is Object) {
        ErrVal::NotAnObject("params"@)
    } else if !(p.body matches Some(v) ==> v is Object) {
        ErrVal::NotAnObject("body"@)
    } else {
        ErrVal::InvalidUrl(p.url@)
    }
}

impl ValidateConfig for RequestProfile {
    /// Valid means: query and body are objects when present, and the URL
    /// parses as an absolute URL.
    open spec fn valid(&self) -> bool {
        self.wf() && url_parse_ok(self.url@)
    }

    /// On failure the error names the first offending part.
    fn validate(&self) -> (r: Result<(), Error>)
        ensures
            r is Ok <==> self.valid(),
            r matches Err(e) ==> e.deep() == spec_validate_err(*self),
    {
        if let Some(v) = &self.params {
            match v {
                JsonValue::Object(_) => {},
                _ => {
                    return Err(Error::NotAnObject(String::from_str("params")));
                },
            }
        }
        if let Some(v) = &self.body {
            match v {
                JsonValue::Object(_) => {},
                _ => {
                    return Err(Error::NotAnObject(String::from_str("body")));
                },
            }
        }
        if !url_is_valid(self.url.as_str()) {
            return Err(Error::InvalidUrl(self.url.clone()));
        }
        Ok(())
    }
}

} // verus!
