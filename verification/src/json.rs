//! The JSON value model that schemas are written in, the parse of JSON text
//! into it, and compact JSON text.
use vstd::prelude::*;
use serde_json::Value;
use crate::text::{decimal, hex_lower, push_char, signed_decimal};

verus! {

/// A JSON number as the schema logic reads it.
#[derive(Debug)]
pub enum JsonNumber {
    /// A non-negative integer.
    PosInt(u64),
    /// A negative integer.
    NegInt(i64),
    /// A number with a fraction or exponent, held as its shortest JSON text.
    Float(String),
}

/// A JSON document. Object members keep their declaration order.
#[derive(Debug)]
pub enum JsonValue {
    Null,
    Bool(bool),
    Number(JsonNumber),
    String(String),
    Array(Vec<JsonValue>),
    Object(Vec<(String, JsonValue)>),
}

/// No object in the tree holds a key twice, as in a JSON object read into a
/// map. (Lookups take the first member of a name; with distinct keys that
/// is the only one.)
pub open spec fn keys_distinct(v: JsonValue) -> bool
    decreases json_size(v), 0nat,
{
    match v {
        JsonValue::Array(items) => items_keys_distinct(items@),
        JsonValue::Object(entries) => {
            &&& forall|i: int, j: int| 0 <= i < j < entries@.len() ==> entries@[i].0@ != entries@[j].0@
            &&& entries_keys_distinct(entries@)
        },
        _ => true,
    }
}

/// Every value of `s` has distinct keys throughout.
pub open spec fn items_keys_distinct(s: Seq<JsonValue>) -> bool
    decreases items_size(s), 1nat,
{
    if s.len() == 0 {
        true
    } else {
        proof {
            assert(json_size(s[s.len() - 1]) >= 1);
        }
        items_keys_distinct(s.subrange(0, s.len() - 1)) && keys_distinct(s[s.len() - 1])
    }
}

/// Every member value of `s` has distinct keys throughout.
pub open spec fn entries_keys_distinct(s: Seq<(String, JsonValue)>) -> bool
    decreases entries_size(s), 1nat,
{
    if s.len() == 0 {
        true
    } else {
        proof {
            assert(json_size(s[s.len() - 1].1) >= 1);
        }
        entries_keys_distinct(s.subrange(0, s.len() - 1)) && keys_distinct(s[s.len() - 1].1)
    }
}

/// Number of nodes in a JSON tree (every node counts one).
pub open spec fn json_size(v: JsonValue) -> nat
    decreases v,
{
    match v {
        JsonValue::Array(items) => 1 + items_size(items@),
        JsonValue::Object(entries) => 1 + entries_size(entries@),
        _ => 1,
    }
}

pub open spec fn items_size(s: Seq<JsonValue>) -> nat
    decreases s,
{
    if s.len() == 0 {
        0
    } else {
        items_size(s.subrange(0, s.len() - 1)) + json_size(s[s.len() - 1])
    }
}

pub open spec fn entries_size(s: Seq<(String, JsonValue)>) -> nat
    decreases s,
{
    if s.len() == 0 {
        0
    } else {
        entries_size(s.subrange(0, s.len() - 1)) + json_size(s[s.len() - 1].1)
    }
}

pub proof fn lemma_item_size(s: Seq<JsonValue>, i: int)
    requires
        0 <= i < s.len(),
    ensures
        json_size(s[i]) <= items_size(s),
    decreases s.len(),
{
    if i < s.len() - 1 {
        lemma_item_size(s.subrange(0, s.len() - 1), i);
    }
}

pub proof fn lemma_entry_size(s: Seq<(String, JsonValue)>, i: int)
    requires
        0 <= i < s.len(),
    ensures
        json_size(s[i].1) <= entries_size(s),
    decreases s.len(),
{
    if i < s.len() - 1 {
        lemma_entry_size(s.subrange(0, s.len() - 1), i);
    }
}

/// The index of the first member of `entries` at or after `from` whose key is `key`.
pub open spec fn key_index_from(entries: Seq<(String, JsonValue)>, key: Seq<char>, from: int) -> Option<int>
    decreases entries.len() - from,
{
    if from < 0 || from >= entries.len() {
        None
    } else if entries[from].0@ == key {
        Some(from)
    } else {
        key_index_from(entries, key, from + 1)
    }
}

/// The index of the member of an object named `key`.
pub open spec fn key_index(entries: Seq<(String, JsonValue)>, key: Seq<char>) -> Option<int> {
    key_index_from(entries, key, 0)
}

/// The value of the member named `key`, as `Map::get` gives it.
pub open spec fn member(entries: Seq<(String, JsonValue)>, key: Seq<char>) -> Option<JsonValue> {
    match key_index(entries, key) {
        Some(i) => Some(entries[i].1),
        None => None,
    }
}

pub proof fn lemma_key_index_from(entries: Seq<(String, JsonValue)>, key: Seq<char>, from: int)
    ensures
        key_index_from(entries, key, from) matches Some(i) ==> from <= i < entries.len()
            && entries[i].0@ == key,
    decreases entries.len() - from,
{
    if 0 <= from < entries.len() && entries[from].0@ != key {
        lemma_key_index_from(entries, key, from + 1);
    }
}

/// A member's value is smaller than the object holding it.
pub proof fn lemma_member_size(entries: Seq<(String, JsonValue)>, key: Seq<char>)
    ensures
        member(entries, key) matches Some(v) ==> json_size(v) <= entries_size(entries),
{
    lemma_key_index_from(entries, key, 0);
    if let Some(i) = key_index(entries, key) {
        lemma_entry_size(entries, i);
    }
}

/// Looks up the member named `key` (`serde_json::Map::get`).
pub fn get_member<'a>(entries: &'a Vec<(String, JsonValue)>, key: &str) -> (r: Option<&'a JsonValue>)
    ensures
        match r {
            Some(v) => member(entries@, key@) == Some(*v),
            None => member(entries@, key@) is None,
        },
{
    let wanted = key.to_owned();
    let mut i: usize = 0;
    while i < entries.len()
        invariant
            i <= entries@.len(),
            wanted@ == key@,
            key_index(entries@, key@) == key_index_from(entries@, key@, i as int),
        decreases entries@.len() - i,
    {
        if entries[i].0 == wanted {
            return Some(&entries[i].1);
        }
        i = i + 1;
    }
    None
}

/// `serde_json`'s escape for one character inside a JSON string literal.
pub open spec fn json_escape_char(c: char) -> Seq<char> {
    let u = c as u32;
    if c == '"' {
        seq!['\\', '"']
    } else if c == '\\' {
        seq!['\\', '\\']
    } else if u == 0x08 {
        seq!['\\', 'b']
    } else if u == 0x0C {
        seq!['\\', 'f']
    } else if c == '\n' {
        seq!['\\', 'n']
    } else if c == '\r' {
        seq!['\\', 'r']
    } else if c == '\t' {
        seq!['\\', 't']
    } else if u < 0x20 {
        seq!['\\', 'u', '0', '0', hex_lower((u / 16) as nat), hex_lower((u % 16) as nat)]
    } else {
        seq![c]
    }
}

/// The JSON string literal for `s`: quoted, with `"`, `\` and control characters escaped.
pub open spec fn json_quote(s: Seq<char>) -> Seq<char> {
    seq!['"'] + s.flat_map(|c: char| json_escape_char(c)) + seq!['"']
}

/// JSON text of a number.
pub open spec fn number_text(n: JsonNumber) -> Seq<char> {
    match n {
        JsonNumber::PosInt(u) => decimal(u as nat),
        JsonNumber::NegInt(i) => signed_decimal(i as int),
        JsonNumber::Float(t) => t@,
    }
}

/// Compact JSON text of a value, as `serde_json`'s `Display` writes it.
pub open spec fn json_text(v: JsonValue) -> Seq<char>
    decreases v,
{
    match v {
        JsonValue::Null => seq!['n', 'u', 'l', 'l'],
        JsonValue::Bool(b) => if b {
            seq!['t', 'r', 'u', 'e']
        } else {
            seq!['f', 'a', 'l', 's', 'e']
        },
        JsonValue::Number(n) => number_text(n),
        JsonValue::String(s) => json_quote(s@),
        JsonValue::Array(items) => seq!['['] + items_text(items@) + seq![']'],
        JsonValue::Object(entries) => seq!['{'] + members_text(entries@) + seq!['}'],
    }
}

pub open spec fn items_text(s: Seq<JsonValue>) -> Seq<char>
    decreases s,
{
    if s.len() == 0 {
        seq![]
    } else if s.len() == 1 {
        json_text(s[0])
    } else {
        items_text(s.subrange(0, s.len() - 1)) + seq![','] + json_text(s[s.len() - 1])
    }
}

pub open spec fn members_text(s: Seq<(String, JsonValue)>) -> Seq<char>
    decreases s,
{
    if s.len() == 0 {
        seq![]
    } else if s.len() == 1 {
        json_quote(s[0].0@) + seq![':'] + json_text(s[0].1)
    } else {
        members_text(s.subrange(0, s.len() - 1)) + seq![','] + json_quote(s[s.len() - 1].0@)
            + seq![':'] + json_text(s[s.len() - 1].1)
    }
}

/// `serde_json` writes a string value as a JSON string literal: quoted, with
/// `"`, `\` and control characters escaped (`\b \f \n \r \t`, the rest as
/// `\u00xx` with lower-case hex), every other character unchanged.
#[verifier::external_body]
pub(crate) fn json_string_literal(text: &str) -> (out: String)
    ensures
        out@ == json_quote(text@),
{
    serde_json::Value::String(text.to_string()).to_string()
}

/// `serde_json` writes a non-negative integer in decimal notation.
#[verifier::external_body]
fn json_u64_text(n: u64) -> (out: String)
    ensures
        out@ == decimal(n as nat),
{
    serde_json::Value::from(n).to_string()
}

/// `serde_json` writes a signed integer in decimal notation, `-` first when negative.
#[verifier::external_body]
fn json_i64_text(n: i64) -> (out: String)
    ensures
        out@ == signed_decimal(n as int),
{
    serde_json::Value::from(n).to_string()
}

/// What `serde_json::from_str` makes of `text`: the value it parses,
/// converted member for member into the library's model, or the message
/// of the parse error.
pub uninterp spec fn json_parse(text: Seq<char>) -> Result<JsonValue, Seq<char>>;

#[verifier::external_type_specification]
#[verifier::external_body]
pub struct ExSerdeJsonValue(serde_json::Value);

/// Converts a `serde_json` value into the library's model, one node for one:
/// integers as `PosInt` / `NegInt` by `as_u64` / `as_i64`, other numbers by
/// their text, object members in their order. Nothing is stated of it here;
/// `parse_json`, its one caller, names the whole result.
#[verifier::external_body]
fn from_serde(value: &Value) -> JsonValue {
    match value {
        Value::Null => JsonValue::Null,
        Value::Bool(b) => JsonValue::Bool(*b),
        Value::Number(n) => JsonValue::Number(match (n.as_u64(), n.as_i64()) {
            (Some(u), _) => JsonNumber::PosInt(u),
            (None, Some(i)) => JsonNumber::NegInt(i),
            (None, None) => JsonNumber::Float(n.to_string()),
        }),
        Value::String(t) => JsonValue::String(t.clone()),
        Value::Array(a) => JsonValue::Array(a.iter().map(from_serde).collect()),
        Value::Object(m) => JsonValue::Object(m.iter().map(|(k, v)| (k.clone(), from_serde(v))).collect()),
    }
}

/// `serde_json::from_str` parses JSON text into a value, or fails with an
/// error whose message says where and why. The result depends on the text
/// alone (it is named by `json_parse`); a parsed object holds each key once,
/// as `serde_json`'s `Map` does.
#[verifier::external_body]
pub fn parse_json(text: &str) -> (r: Result<JsonValue, String>)
    ensures
        match r {
            Ok(v) => json_parse(text@) == Ok::<JsonValue, Seq<char>>(v) && keys_distinct(v),
            Err(m) => json_parse(text@) == Err::<JsonValue, Seq<char>>(m@),
        },
{
    match serde_json::from_str::<serde_json::Value>(text) {
        Ok(v) => Ok(from_serde(&v)),
        Err(e) => Err(e.to_string()),
    }
}

/// JSON text of a number.
pub fn number_to_text(n: &JsonNumber) -> (out: String)
    ensures
        out@ == number_text(*n),
{
    match n {
        JsonNumber::PosInt(u) => json_u64_text(*u),
        JsonNumber::NegInt(i) => json_i64_text(*i),
        JsonNumber::Float(t) => t.clone(),
    }
}

/// Appends the compact JSON text of `v`.
pub fn write_json(out: &mut String, v: &JsonValue)
    ensures
        final(out)@ == old(out)@ + json_text(*v),
    decreases json_size(*v),
{
    match v {
        JsonValue::Null => {
            out.append("null");
            proof { reveal_strlit("null"); }
            assert(final(out)@ =~= old(out)@ + json_text(*v));
        },
        JsonValue::Bool(b) => {
            if *b {
                out.append("true");
                proof { reveal_strlit("true"); }
            } else {
                out.append("false");
                proof { reveal_strlit("false"); }
            }
            assert(final(out)@ =~= old(out)@ + json_text(*v));
        },
        JsonValue::Number(n) => {
            let t = number_to_text(n);
            out.append(t.as_str());
        },
        JsonValue::String(s) => {
            let t = json_string_literal(s.as_str());
            out.append(t.as_str());
        },
        JsonValue::Array(items) => {
            push_char(out, '[');
            let ghost start = out@;
            let mut i: usize = 0;
            while i < items.len()
                invariant
                    i <= items@.len(),
                    out@ == start + items_text(items@.subrange(0, i as int)),
                    json_size(*v) == 1 + items_size(items@),
                decreases items@.len() - i,
            {
                if i > 0 {
                    push_char(out, ',');
                }
                proof { lemma_item_size(items@, i as int); }
                write_json(out, &items[i]);
                proof {
                    let prefix = items@.subrange(0, i + 1);
                    assert(prefix.subrange(0, prefix.len() - 1) =~= items@.subrange(0, i as int));
                }
                i = i + 1;
            }
            push_char(out, ']');
            assert(items@.subrange(0, items@.len() as int) =~= items@);
            assert(final(out)@ =~= old(out)@ + json_text(*v));
        },
        JsonValue::Object(entries) => {
            push_char(out, '{');
            let ghost start = out@;
            let mut i: usize = 0;
            while i < entries.len()
                invariant
                    i <= entries@.len(),
                    out@ == start + members_text(entries@.subrange(0, i as int)),
                    json_size(*v) == 1 + entries_size(entries@),
                decreases entries@.len() - i,
            {
                if i > 0 {
                    push_char(out, ',');
                }
                let key = json_string_literal(entries[i].0.as_str());
                out.append(key.as_str());
                push_char(out, ':');
                proof { lemma_entry_size(entries@, i as int); }
                write_json(out, &entries[i].1);
                proof {
                    let prefix = entries@.subrange(0, i + 1);
                    assert(prefix.subrange(0, prefix.len() - 1) =~= entries@.subrange(0, i as int));
                }
                i = i + 1;
            }
            push_char(out, '}');
            assert(entries@.subrange(0, entries@.len() as int) =~= entries@);
            assert(final(out)@ =~= old(out)@ + json_text(*v));
        },
    }
}

/// Compact JSON text of `v`, as `serde_json`'s `Display` writes it.
pub fn to_json_text(v: &JsonValue) -> (out: String)
    ensures
        out@ == json_text(*v),
{
    let mut out = String::new();
    write_json(&mut out, v);
    assert(out@ =~= json_text(*v));
    out
}

} // verus!
