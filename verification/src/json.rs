//! JSON values as the engine sees them. A number keeps its literal decimal
//! token, so a value is exact and its serialization is byte-stable; an object
//! is an insertion-ordered list of key/value entries.

use vstd::prelude::*;

use crate::text::push_char;

verus! {

broadcast use
    vstd::seq::axiom_seq_index_decreases,
    vstd::seq::axiom_seq_subrange_decreases,
    vstd::std_specs::vec::axiom_vec_index_decreases;

/// Mathematical model of a JSON value.
pub enum JsonVal {
    Null,
    Bool(bool),
    Number(Seq<char>),
    Text(Seq<char>),
    Array(Seq<JsonVal>),
    Object(Seq<(Seq<char>, JsonVal)>),
}

/// A JSON value. `Number` holds the literal token of the number (for example
/// `12` or `1.5`), which serialization emits unchanged.
#[derive(Debug)]
pub enum JsonValue {
    Null,
    Bool(bool),
    Number(String),
    Text(String),
    Array(Vec<JsonValue>),
    Object(Vec<(String, JsonValue)>),
}

impl JsonValue {
    /// The mathematical value this node stands for.
    pub open spec fn deep(self) -> JsonVal
        decreases self,
    {
        match self {
            JsonValue::Null => JsonVal::Null,
            JsonValue::Bool(b) => JsonVal::Bool(b),
            JsonValue::Number(s) => JsonVal::Number(s@),
            JsonValue::Text(s) => JsonVal::Text(s@),
            JsonValue::Array(a) => {
                proof {
                    assert(decreases_to!(self => a));
                    assert(decreases_to!(a => a@));
                }
                JsonVal::Array(deep_arr(a@))
            },
            JsonValue::Object(m) => {
                proof {
                    assert(decreases_to!(self => m));
                    assert(decreases_to!(m => m@));
                }
                JsonVal::Object(deep_obj(m@))
            },
        }
    }
}

/// Model of a list of JSON values.
pub open spec fn deep_arr(s: Seq<JsonValue>) -> Seq<JsonVal>
    decreases s,
{
    if s.len() == 0 {
        Seq::empty()
    } else {
        deep_arr(s.subrange(0, s.len() - 1)).push(s[s.len() - 1].deep())
    }
}

/// Model of a list of JSON object entries.
pub open spec fn deep_obj(s: Seq<(String, JsonValue)>) -> Seq<(Seq<char>, JsonVal)>
    decreases s,
{
    if s.len() == 0 {
        Seq::empty()
    } else {
        proof {
            assert(decreases_to!(s => s[s.len() - 1]));
        }
        deep_obj(s.subrange(0, s.len() - 1)).push(
            (s[s.len() - 1].0@, s[s.len() - 1].1.deep()),
        )
    }
}

pub broadcast proof fn lemma_deep_arr(s: Seq<JsonValue>)
    ensures
        (#[trigger] deep_arr(s)).len() == s.len(),
        forall|i: int| 0 <= i < s.len() ==> deep_arr(s)[i] == s[i].deep(),
    decreases s.len(),
{
    if s.len() > 0 {
        lemma_deep_arr(s.subrange(0, s.len() - 1));
    }
}

pub broadcast proof fn lemma_deep_obj(s: Seq<(String, JsonValue)>)
    ensures
        (#[trigger] deep_obj(s)).len() == s.len(),
        forall|i: int| 0 <= i < s.len() ==> deep_obj(s)[i] == (s[i].0@, s[i].1.deep()),
    decreases s.len(),
{
    if s.len() > 0 {
        lemma_deep_obj(s.subrange(0, s.len() - 1));
    }
}

impl JsonValue {
    /// A structural copy standing for the same mathematical value.
    #[verifier::loop_isolation(false)]
    pub fn duplicate(&self) -> (r: JsonValue)
        ensures
            r.deep() == self.deep(),
        decreases *self,
    {
        broadcast use lemma_deep_arr, lemma_deep_obj;

        match self {
            JsonValue::Null => JsonValue::Null,
            JsonValue::Bool(b) => JsonValue::Bool(*b),
            JsonValue::Number(s) => JsonValue::Number(s.clone()),
            JsonValue::Text(s) => JsonValue::Text(s.clone()),
            JsonValue::Array(a) => {
                let mut out: Vec<JsonValue> = Vec::new();
                let mut i: usize = 0;
                while i < a.len()
                    invariant
                        i <= a.len(),
                        out@.len() == i,
                        forall|j: int| 0 <= j < i ==> out@[j].deep() == a@[j].deep(),
                    decreases a.len() - i,
                {
                    proof {
                        assert(decreases_to!(*self => *a));
                        assert(decreases_to!(*a => a@));
                        assert(decreases_to!(a@ => a@[i as int]));
                    }
                    let item = a[i].duplicate();
                    out.push(item);
                    i += 1;
                }
                proof {
                    assert(deep_arr(out@) =~= deep_arr(a@));
                }
                JsonValue::Array(out)
            },
            JsonValue::Object(m) => {
                let mut out: Vec<(String, JsonValue)> = Vec::new();
                let mut i: usize = 0;
                while i < m.len()
                    invariant
                        i <= m.len(),
                        out@.len() == i,
                        forall|j: int| 0 <= j < i ==> out@[j].0@ == m@[j].0@ && out@[j].1.deep()
                            == m@[j].1.deep(),
                    decreases m.len() - i,
                {
                    proof {
                        assert(decreases_to!(*self => *m));
                        assert(decreases_to!(*m => m@));
                        assert(decreases_to!(m@ => m@[i as int]));
                        assert(decreases_to!(m@[i as int] => m@[i as int].1));
                    }
                    let key = m[i].0.clone();
                    let val = m[i].1.duplicate();
                    out.push((key, val));
                    i += 1;
                }
                proof {
                    assert(deep_obj(out@) =~= deep_obj(m@));
                }
                JsonValue::Object(out)
            },
        }
    }
}

// ---------------------------------------------------------------------------
// Ordered-object lookup and insert-or-replace
// ---------------------------------------------------------------------------

/// The value of the first entry whose key reads `key`, or `Null` when no
/// entry has that key.
pub open spec fn spec_obj_get(entries: Seq<(Seq<char>, JsonVal)>, key: Seq<char>) -> JsonVal
    decreases entries.len(),
{
    if entries.len() == 0 {
        JsonVal::Null
    } else if entries[0].0 == key {
        entries[0].1
    } else {
        spec_obj_get(entries.subrange(1, entries.len() as int), key)
    }
}

/// Insert-or-replace for an ordered object: a present key keeps its position
/// and receives the new value; an absent key is appended at the end.
pub open spec fn spec_obj_insert(
    entries: Seq<(Seq<char>, JsonVal)>,
    key: Seq<char>,
    value: JsonVal,
) -> Seq<(Seq<char>, JsonVal)>
    decreases entries.len(),
{
    if entries.len() == 0 {
        seq![(key, value)]
    } else if entries[0].0 == key {
        seq![(key, value)] + entries.subrange(1, entries.len() as int)
    } else {
        seq![entries[0]] + spec_obj_insert(entries.subrange(1, entries.len() as int), key, value)
    }
}

pub proof fn lemma_obj_get_first_match(entries: Seq<(Seq<char>, JsonVal)>, key: Seq<char>, j: int)
    requires
        0 <= j < entries.len(),
        entries[j].0 == key,
        forall|i: int| 0 <= i < j ==> entries[i].0 != key,
    ensures
        spec_obj_get(entries, key) == entries[j].1,
    decreases j,
{
    if j > 0 {
        lemma_obj_get_first_match(entries.subrange(1, entries.len() as int), key, j - 1);
    }
}

pub proof fn lemma_obj_get_no_match(entries: Seq<(Seq<char>, JsonVal)>, key: Seq<char>)
    requires
        forall|i: int| 0 <= i < entries.len() ==> entries[i].0 != key,
    ensures
        spec_obj_get(entries, key) == JsonVal::Null,
    decreases entries.len(),
{
    if entries.len() > 0 {
        lemma_obj_get_no_match(entries.subrange(1, entries.len() as int), key);
    }
}

proof fn lemma_obj_insert_replace_at(
    entries: Seq<(Seq<char>, JsonVal)>,
    key: Seq<char>,
    value: JsonVal,
    j: int,
)
    requires
        0 <= j < entries.len(),
        entries[j].0 == key,
        forall|i: int| 0 <= i < j ==> entries[i].0 != key,
    ensures
        spec_obj_insert(entries, key, value) == entries.update(j, (key, value)),
    decreases j,
{
    if j == 0 {
        assert(spec_obj_insert(entries, key, value) =~= entries.update(0, (key, value)));
    } else {
        let rest = entries.subrange(1, entries.len() as int);
        lemma_obj_insert_replace_at(rest, key, value, j - 1);
        assert(spec_obj_insert(entries, key, value) =~= entries.update(j, (key, value)));
    }
}

proof fn lemma_obj_insert_append(
    entries: Seq<(Seq<char>, JsonVal)>,
    key: Seq<char>,
    value: JsonVal,
)
    requires
        forall|i: int| 0 <= i < entries.len() ==> entries[i].0 != key,
    ensures
        spec_obj_insert(entries, key, value) == entries.push((key, value)),
    decreases entries.len(),
{
    if entries.len() == 0 {
        assert(spec_obj_insert(entries, key, value) =~= entries.push((key, value)));
    } else {
        lemma_obj_insert_append(entries.subrange(1, entries.len() as int), key, value);
        assert(spec_obj_insert(entries, key, value) =~= entries.push((key, value)));
    }
}

/// Inserting a key stores exactly that value under it.
pub proof fn lemma_obj_get_insert_same(
    entries: Seq<(Seq<char>, JsonVal)>,
    key: Seq<char>,
    value: JsonVal,
)
    ensures
        spec_obj_get(spec_obj_insert(entries, key, value), key) == value,
    decreases entries.len(),
{
    if entries.len() > 0 && entries[0].0 != key {
        lemma_obj_get_insert_same(entries.subrange(1, entries.len() as int), key, value);
        let ins = spec_obj_insert(entries, key, value);
        assert(ins.subrange(1, ins.len() as int) =~= spec_obj_insert(
            entries.subrange(1, entries.len() as int),
            key,
            value,
        ));
    }
}

/// Inserting a key leaves every other key's value unchanged.
pub proof fn lemma_obj_get_insert_other(
    entries: Seq<(Seq<char>, JsonVal)>,
    key: Seq<char>,
    value: JsonVal,
    other: Seq<char>,
)
    requires
        other != key,
    ensures
        spec_obj_get(spec_obj_insert(entries, key, value), other) == spec_obj_get(entries, other),
    decreases entries.len(),
{
    let ins = spec_obj_insert(entries, key, value);
    if entries.len() == 0 {
        assert(ins.subrange(1, ins.len() as int) =~= Seq::<(Seq<char>, JsonVal)>::empty());
        assert(spec_obj_get(Seq::<(Seq<char>, JsonVal)>::empty(), other) == JsonVal::Null);
        assert(spec_obj_get(ins, other) == JsonVal::Null);
    } else if entries[0].0 == key {
        assert(ins.subrange(1, ins.len() as int) =~= entries.subrange(1, entries.len() as int));
    } else {
        lemma_obj_get_insert_other(entries.subrange(1, entries.len() as int), key, value, other);
        assert(ins.subrange(1, ins.len() as int) =~= spec_obj_insert(
            entries.subrange(1, entries.len() as int),
            key,
            value,
        ));
    }
}

/// Insert-or-replace on an object's entry list, preserving entry order.
#[verifier::loop_isolation(false)]
pub fn obj_insert(entries: &mut Vec<(String, JsonValue)>, key: String, value: JsonValue)
    ensures
        deep_obj(final(entries)@) == spec_obj_insert(deep_obj(old(entries)@), key@, value.deep()),
{
    broadcast use lemma_deep_obj;

    let ghost orig = entries@;
    let mut i: usize = 0;
    while i < entries.len()
        invariant
            i <= entries.len(),
            entries@ == orig,
            forall|j: int| 0 <= j < i ==> orig[j].0@ != key@,
        decreases entries.len() - i,
    {
        if entries[i].0 == key {
            let ghost kept = entries@[i as int].0;
            entries[i] = (key, value);
            proof {
                lemma_obj_insert_replace_at(deep_obj(orig), key@, value.deep(), i as int);
                assert(deep_obj(entries@) =~= deep_obj(orig).update(
                    i as int,
                    (key@, value.deep()),
                ));
            }
            return ;
        }
        i += 1;
    }
    entries.push((key, value));
    proof {
        lemma_obj_insert_append(deep_obj(orig), key@, value.deep());
        assert(deep_obj(entries@) =~= deep_obj(orig).push((key@, value.deep())));
    }
}

// ---------------------------------------------------------------------------
// Serialization to compact JSON text
// ---------------------------------------------------------------------------

/// Hexadecimal digit for one nibble.
pub open spec fn spec_hex_digit(n: int) -> char {
    if n == 0 { '0' } else if n == 1 { '1' } else if n == 2 { '2' } else if n == 3 { '3' }
    else if n == 4 { '4' } else if n == 5 { '5' } else if n == 6 { '6' } else if n == 7 { '7' }
    else if n == 8 { '8' } else if n == 9 { '9' } else if n == 10 { 'a' } else if n == 11 { 'b' }
    else if n == 12 { 'c' } else if n == 13 { 'd' } else if n == 14 { 'e' } else { 'f' }
}

/// How one character appears inside a JSON string literal: quote and
/// backslash get a backslash escape, control characters get their short
/// escape or a `\u00..` escape, and every other character stands as itself.
pub open spec fn spec_escape_char(c: char) -> Seq<char> {
    if c == '"' {
        seq!['\\', '"']
    } else if c == '\\' {
        seq!['\\', '\\']
    } else if c == '\u{8}' {
        seq!['\\', 'b']
    } else if c == '\u{c}' {
        seq!['\\', 'f']
    } else if c == '\n' {
        seq!['\\', 'n']
    } else if c == '\r' {
        seq!['\\', 'r']
    } else if c == '\t' {
        seq!['\\', 't']
    } else if (c as u32) < 0x20 {
        seq!['\\', 'u', '0', '0', spec_hex_digit(c as u32 as int / 16), spec_hex_digit(
            c as u32 as int % 16,
        )]
    } else {
        seq![c]
    }
}

/// The escaped body of a JSON string literal.
pub open spec fn spec_escaped(s: Seq<char>) -> Seq<char>
    decreases s.len(),
{
    if s.len() == 0 {
        Seq::empty()
    } else {
        spec_escaped(s.subrange(0, s.len() - 1)) + spec_escape_char(s[s.len() - 1])
    }
}

/// A JSON string literal: the escaped text between double quotes.
pub open spec fn spec_quoted(s: Seq<char>) -> Seq<char> {
    "\""@ + spec_escaped(s) + "\""@
}

/// The compact JSON text of a value: no added whitespace, object and array
/// entries joined by single commas, entry order preserved.
pub open spec fn spec_json_text(v: JsonVal) -> Seq<char>
    decreases v,
{
    match v {
        JsonVal::Null => "null"@,
        JsonVal::Bool(b) => if b { "true"@ } else { "false"@ },
        JsonVal::Number(s) => s,
        JsonVal::Text(s) => spec_quoted(s),
        JsonVal::Array(a) => "["@ + spec_arr_text(a) + "]"@,
        JsonVal::Object(m) => "{"@ + spec_obj_text(m) + "}"@,
    }
}

/// Comma-joined texts of array items.
pub open spec fn spec_arr_text(s: Seq<JsonVal>) -> Seq<char>
    decreases s,
{
    if s.len() == 0 {
        Seq::empty()
    } else if s.len() == 1 {
        spec_json_text(s[0])
    } else {
        spec_arr_text(s.subrange(0, s.len() - 1)) + ","@ + spec_json_text(s[s.len() - 1])
    }
}

/// Comma-joined `"key":value` texts of object entries.
pub open spec fn spec_obj_text(s: Seq<(Seq<char>, JsonVal)>) -> Seq<char>
    decreases s,
{
    if s.len() == 0 {
        Seq::empty()
    } else if s.len() == 1 {
        spec_entry_text(s[0])
    } else {
        spec_obj_text(s.subrange(0, s.len() - 1)) + ","@ + spec_entry_text(s[s.len() - 1])
    }
}

/// The `"key":value` text of one object entry.
pub open spec fn spec_entry_text(e: (Seq<char>, JsonVal)) -> Seq<char>
    decreases e,
{
    spec_quoted(e.0) + ":"@ + spec_json_text(e.1)
}

fn hex_digit(n: u32) -> (r: char)
    requires
        n < 16,
    ensures
        r == spec_hex_digit(n as int),
{
    if n == 0 { '0' } else if n == 1 { '1' } else if n == 2 { '2' } else if n == 3 { '3' }
    else if n == 4 { '4' } else if n == 5 { '5' } else if n == 6 { '6' } else if n == 7 { '7' }
    else if n == 8 { '8' } else if n == 9 { '9' } else if n == 10 { 'a' } else if n == 11 { 'b' }
    else if n == 12 { 'c' } else if n == 13 { 'd' } else if n == 14 { 'e' } else { 'f' }
}

/// Writes a JSON string literal for `s`.
#[verifier::loop_isolation(false)]
fn quoted(s: &str) -> (r: String)
    ensures
        r@ == spec_quoted(s@),
{
    let n = s.unicode_len();
    let mut out = String::from_str("\"");
    let mut i: usize = 0;
    while i < n
        invariant
            i <= n,
            out@ == "\""@ + spec_escaped(s@.subrange(0, i as int)),
        decreases n - i,
    {
        let c = s.get_char(i);
        if c == '"' {
            push_char(&mut out, '\\');
            push_char(&mut out, '"');
        } else if c == '\\' {
            push_char(&mut out, '\\');
            push_char(&mut out, '\\');
        } else if c == '\u{8}' {
            push_char(&mut out, '\\');
            push_char(&mut out, 'b');
        } else if c == '\u{c}' {
            push_char(&mut out, '\\');
            push_char(&mut out, 'f');
        } else if c == '\n' {
            push_char(&mut out, '\\');
            push_char(&mut out, 'n');
        } else if c == '\r' {
            push_char(&mut out, '\\');
            push_char(&mut out, 'r');
        } else if c == '\t' {
            push_char(&mut out, '\\');
            push_char(&mut out, 't');
        } else if (c as u32) < 0x20 {
            push_char(&mut out, '\\');
            push_char(&mut out, 'u');
            push_char(&mut out, '0');
            push_char(&mut out, '0');
            push_char(&mut out, hex_digit((c as u32) / 16));
            push_char(&mut out, hex_digit((c as u32) % 16));
        } else {
            push_char(&mut out, c);
        }
        proof {
            assert(s@.subrange(0, i + 1).subrange(0, i as int) =~= s@.subrange(0, i as int));
            assert(out@ =~= "\""@ + spec_escaped(s@.subrange(0, i + 1)));
        }
        i += 1;
    }
    proof {
        assert(s@.subrange(0, n as int) =~= s@);
    }
    let mut outq = out;
    push_char(&mut outq, '"');
    proof {
        reveal_strlit("\"");
        assert(outq@ =~= spec_quoted(s@));
    }
    outq
}

impl JsonValue {
    /// The compact JSON text of this value.
    #[verifier::loop_isolation(false)]
    pub fn to_json_text(&self) -> (r: String)
        ensures
            r@ == spec_json_text(self.deep()),
        decreases *self,
    {
        broadcast use lemma_deep_arr, lemma_deep_obj;

        match self {
            JsonValue::Null => String::from_str("null"),
            JsonValue::Bool(b) => {
                if *b {
                    String::from_str("true")
                } else {
                    String::from_str("false")
                }
            },
            JsonValue::Number(s) => s.clone(),
            JsonValue::Text(s) => quoted(s.as_str()),
            JsonValue::Array(a) => {
                let ghost da = deep_arr(a@);
                let mut out = String::from_str("[");
                let mut i: usize = 0;
                while i < a.len()
                    invariant
                        i <= a.len(),
                        out@ == "["@ + spec_arr_text(da.subrange(0, i as int)),
                    decreases a.len() - i,
                {
                    if i > 0 {
                        out.append(",");
                    }
                    proof {
                        assert(decreases_to!(*self => *a));
                        assert(decreases_to!(*a => a@));
                        assert(decreases_to!(a@ => a@[i as int]));
                    }
                    let item = a[i].to_json_text();
                    out.append(item.as_str());
                    proof {
                        assert(da.subrange(0, i + 1).subrange(0, i as int) =~= da.subrange(
                            0,
                            i as int,
                        ));
                        assert(out@ =~= "["@ + spec_arr_text(da.subrange(0, i + 1)));
                    }
                    i += 1;
                }
                proof {
                    assert(da.subrange(0, a.len() as int) =~= da);
                }
                out.append("]");
                out
            },
            JsonValue::Object(m) => {
                let ghost dm = deep_obj(m@);
                let mut out = String::from_str("{");
                let mut i: usize = 0;
                while i < m.len()
                    invariant
                        i <= m.len(),
                        out@ == "{"@ + spec_obj_text(dm.subrange(0, i as int)),
                    decreases m.len() - i,
                {
                    if i > 0 {
                        out.append(",");
                    }
                    let k = quoted(m[i].0.as_str());
                    out.append(k.as_str());
                    out.append(":");
                    proof {
                        assert(decreases_to!(*self => *m));
                        assert(decreases_to!(*m => m@));
                        assert(decreases_to!(m@ => m@[i as int]));
                        assert(decreases_to!(m@[i as int] => m@[i as int].1));
                    }
                    let item = m[i].1.to_json_text();
                    out.append(item.as_str());
                    proof {
                        assert(dm.subrange(0, i + 1).subrange(0, i as int) =~= dm.subrange(
                            0,
                            i as int,
                        ));
                        assert(dm[i as int] == (m@[i as int].0@, m@[i as int].1.deep()));
                        assert(spec_entry_text(dm[i as int]) == spec_quoted(m@[i as int].0@)
                            + ":"@ + spec_json_text(m@[i as int].1.deep()));
                        assert(out@ =~= "{"@ + spec_obj_text(dm.subrange(0, i + 1)));
                    }
                    i += 1;
                }
                proof {
                    assert(dm.subrange(0, m.len() as int) =~= dm);
                }
                out.append("}");
                out
            },
        }
    }
}

// ---------------------------------------------------------------------------
// Dotted-path extraction
// ---------------------------------------------------------------------------

/// Position of the first occurrence of `c` in `s`, or `-1` when `s` has
/// none.
pub open spec fn spec_find_char(s: Seq<char>, c: char) -> int
    decreases s.len(),
{
    if s.len() == 0 {
        -1
    } else if s[0] == c {
        0
    } else {
        let r = spec_find_char(s.subrange(1, s.len() as int), c);
        if r < 0 {
            -1
        } else {
            r + 1
        }
    }
}

pub proof fn lemma_find_char_props(s: Seq<char>, c: char)
    ensures
        -1 <= spec_find_char(s, c) < s.len(),
        spec_find_char(s, c) >= 0 ==> s[spec_find_char(s, c)] == c,
        forall|j: int| 0 <= j < s.len() && s[j] == c ==> spec_find_char(s, c) >= 0,
    decreases s.len(),
{
    if s.len() > 0 && s[0] != c {
        let sub = s.subrange(1, s.len() as int);
        lemma_find_char_props(sub, c);
        assert forall|j: int| 0 <= j < s.len() && s[j] == c implies spec_find_char(s, c) >= 0 by {
            assert(j > 0);
            assert(sub[j - 1] == c);
        }
        if spec_find_char(sub, c) >= 0 {
            assert(s[spec_find_char(s, c)] == sub[spec_find_char(sub, c)]);
        }
    }
}

proof fn lemma_find_char_at(s: Seq<char>, c: char, i: int)
    requires
        0 <= i < s.len(),
        s[i] == c,
        forall|j: int| 0 <= j < i ==> s[j] != c,
    ensures
        spec_find_char(s, c) == i,
    decreases i,
{
    if i > 0 {
        lemma_find_char_at(s.subrange(1, s.len() as int), c, i - 1);
    }
}

proof fn lemma_find_char_none(s: Seq<char>, c: char)
    requires
        forall|j: int| 0 <= j < s.len() ==> s[j] != c,
    ensures
        spec_find_char(s, c) == -1,
    decreases s.len(),
{
    if s.len() > 0 {
        lemma_find_char_none(s.subrange(1, s.len() as int), c);
    }
}

/// Whether `s` is one or more decimal digits.
pub open spec fn spec_is_digits(s: Seq<char>) -> bool {
    s.len() > 0 && forall|i: int| 0 <= i < s.len() ==> '0' <= #[trigger] s[i] <= '9'
}

/// The decimal value of a digit sequence.
pub open spec fn spec_dec_val(s: Seq<char>) -> int
    decreases s.len(),
{
    if s.len() == 0 {
        0
    } else {
        spec_dec_val(s.subrange(0, s.len() - 1)) * 10 + (s[s.len() - 1] as int - '0' as int)
    }
}

proof fn lemma_dec_val_nonneg(s: Seq<char>)
    requires
        forall|i: int| 0 <= i < s.len() ==> '0' <= #[trigger] s[i] <= '9',
    ensures
        spec_dec_val(s) >= 0,
    decreases s.len(),
{
    if s.len() > 0 {
        lemma_dec_val_nonneg(s.subrange(0, s.len() - 1));
    }
}

proof fn lemma_dec_val_prefix_le(s: Seq<char>, i: int)
    requires
        0 <= i <= s.len(),
        forall|j: int| 0 <= j < s.len() ==> '0' <= #[trigger] s[j] <= '9',
    ensures
        spec_dec_val(s.subrange(0, i)) <= spec_dec_val(s),
    decreases s.len() - i,
{
    if i == s.len() {
        assert(s.subrange(0, i) =~= s);
    } else {
        lemma_dec_val_prefix_le(s, i + 1);
        let p = s.subrange(0, i + 1);
        assert(p.subrange(0, i) =~= s.subrange(0, i));
        lemma_dec_val_nonneg(s.subrange(0, i));
        assert(spec_dec_val(p) == spec_dec_val(s.subrange(0, i)) * 10 + (s[i] as int
            - '0' as int));
    }
}

/// One path segment applied to a value: an object is entered by key, an
/// array by a decimal index, and anything else (or a miss) yields `Null`.
pub open spec fn spec_seg_get(v: JsonVal, seg: Seq<char>) -> JsonVal {
    match v {
        JsonVal::Object(m) => spec_obj_get(m, seg),
        JsonVal::Array(a) => if spec_is_digits(seg) && spec_dec_val(seg) < a.len() {
            a[spec_dec_val(seg)]
        } else {
            JsonVal::Null
        },
        _ => JsonVal::Null,
    }
}

/// The value at a dotted path: segments are the parts of `path` between
/// dots, applied left to right; any miss short-circuits the whole lookup to
/// `Null`, so extraction is total.
pub open spec fn spec_extract(v: JsonVal, path: Seq<char>) -> JsonVal
    decreases path.len(),
{
    let d = spec_find_char(path, '.');
    if d < 0 {
        spec_seg_get(v, path)
    } else {
        proof {
            lemma_find_char_props(path, '.');
        }
        spec_extract(
            spec_seg_get(v, path.subrange(0, d)),
            path.subrange(d + 1, path.len() as int),
        )
    }
}

/// Finds the first occurrence of `c` in `s`, agreeing with
/// `spec_find_char`.
#[verifier::loop_isolation(false)]
pub fn find_char_at(s: &str, c: char) -> (r: Option<usize>)
    ensures
        match r {
            Some(i) => spec_find_char(s@, c) == i && i < s@.len(),
            None => spec_find_char(s@, c) == -1,
        },
{
    let n = s.unicode_len();
    let mut i: usize = 0;
    while i < n
        invariant
            i <= n,
            forall|j: int| 0 <= j < i ==> s@[j] != c,
        decreases n - i,
    {
        if s.get_char(i) == c {
            proof {
                lemma_find_char_at(s@, c, i as int);
            }
            return Some(i);
        }
        i += 1;
    }
    proof {
        lemma_find_char_none(s@, c);
    }
    None
}

/// Turns a segment into an array index if it is all digits and in range.
#[verifier::loop_isolation(false)]
fn arr_index(seg: &str, len: usize) -> (r: Option<usize>)
    ensures
        match r {
            Some(i) => spec_is_digits(seg@) && spec_dec_val(seg@) == i && i < len,
            None => !spec_is_digits(seg@) || spec_dec_val(seg@) >= len,
        },
{
    let n = seg.unicode_len();
    if n == 0 {
        return None;
    }
    let mut i: usize = 0;
    while i < n
        invariant
            i <= n,
            forall|j: int| 0 <= j < i ==> '0' <= #[trigger] seg@[j] <= '9',
        decreases n - i,
    {
        let c = seg.get_char(i);
        if !('0' <= c && c <= '9') {
            return None;
        }
        i += 1;
    }
    if len == 0 {
        proof {
            lemma_dec_val_nonneg(seg@);
        }
        return None;
    }
    let mut acc: usize = 0;
    i = 0;
    proof {
        assert(seg@.subrange(0, 0) =~= Seq::<char>::empty());
    }
    while i < n
        invariant
            i <= n,
            acc == spec_dec_val(seg@.subrange(0, i as int)),
            acc < len,
        decreases n - i,
    {
        let c = seg.get_char(i);
        let d: u32 = (c as u32) - ('0' as u32);
        let next: u128 = (acc as u128) * 10 + (d as u128);
        proof {
            assert(seg@.subrange(0, i + 1).subrange(0, i as int) =~= seg@.subrange(0, i as int));
            assert(spec_dec_val(seg@.subrange(0, i + 1)) == acc * 10 + d);
        }
        if next >= len as u128 {
            proof {
                lemma_dec_val_prefix_le(seg@, i + 1);
            }
            return None;
        }
        acc = next as usize;
        i += 1;
    }
    proof {
        assert(seg@.subrange(0, n as int) =~= seg@);
    }
    Some(acc)
}

/// Looks up one segment in a value.
#[verifier::loop_isolation(false)]
fn seg_get(v: &JsonValue, seg: &str) -> (r: JsonValue)
    ensures
        r.deep() == spec_seg_get(v.deep(), seg@),
{
    broadcast use lemma_deep_arr, lemma_deep_obj;

    match v {
        JsonValue::Object(m) => {
            let seg_string = seg.to_owned();
            let mut i: usize = 0;
            while i < m.len()
                invariant
                    i <= m.len(),
                    seg_string@ == seg@,
                    forall|j: int| 0 <= j < i ==> m@[j].0@ != seg@,
                decreases m.len() - i,
            {
                if m[i].0 == seg_string {
                    let r = m[i].1.duplicate();
                    proof {
                        lemma_obj_get_first_match(deep_obj(m@), seg@, i as int);
                        assert(r.deep() == spec_obj_get(deep_obj(m@), seg@));
                        assert(v.deep() == JsonVal::Object(deep_obj(m@)));
                    }
                    return r;
                }
                i += 1;
            }
            proof {
                lemma_obj_get_no_match(deep_obj(m@), seg@);
            }
            JsonValue::Null
        },
        JsonValue::Array(a) => {
            proof {
                assert(v.deep() == JsonVal::Array(deep_arr(a@)));
            }
            match arr_index(seg, a.len()) {
                Some(i) => {
                    let r = a[i].duplicate();
                    proof {
                        assert(r.deep() == deep_arr(a@)[i as int]);
                    }
                    r
                },
                None => {
                    proof {
                        assert(!(spec_is_digits(seg@) && spec_dec_val(seg@) < deep_arr(
                            a@,
                        ).len()));
                    }
                    JsonValue::Null
                },
            }
        },
        _ => JsonValue::Null,
    }
}

/// The value at a dotted path in `v`, or `Null` when any segment misses.
/// Extraction is total: it returns a value for every input.
pub fn extract(v: &JsonValue, path: &str) -> (r: JsonValue)
    ensures
        r.deep() == spec_extract(v.deep(), path@),
    decreases path@.len(),
{
    match find_char_at(path, '.') {
        None => seg_get(v, path),
        Some(d) => {
            let n = path.unicode_len();
            let head = path.substring_char(0, d);
            let tail = path.substring_char(d + 1, n);
            let inner = seg_get(v, head);
            extract(&inner, tail)
        },
    }
}

} // verus!
