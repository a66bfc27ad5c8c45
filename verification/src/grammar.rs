//! JSON Schema → GBNF conversion for grammar-constrained generation.
//!
//! Supported subset (anything else is rejected with an error naming it):
//! `type: object` + `properties` (all required, in declaration order; a
//! `required` list must name every property), `type: array` + `items` with
//! `minItems` 0 or 1, the scalar types, `enum`/`const` of scalars,
//! `anyOf`/`oneOf` and multi-type arrays as alternation. A sub-schema's rule
//! is named after its path (property keys with every character other than
//! an ASCII letter or digit turned into `-`). Two sub-schemas that would
//! share a rule name with the same production share the rule; with
//! different productions they are refused rather than one silently
//! standing in for the other.
use vstd::prelude::*;
use crate::error::{InferError, invalid_option, is_invalid_option};
use crate::json::{
    JsonNumber, JsonValue, entries_size, items_size, json_quote, json_size, json_text,
    lemma_entry_size, lemma_item_size, lemma_member_size, member,
};
use crate::json::{get_member, json_string_literal, to_json_text};
use crate::grammar_laws::{keeps_rules, lemma_node_sound};
use crate::text::{
    chars_of, debug_quoted, debug_str, decimal, hex_digit_upper, hex_upper, join, join_strings, push_char,
    push_decimal, str_eq, views,
};

verus! {

/// A rule list: `(name, production)` pairs in insertion order.
pub type Rules = Seq<(Seq<char>, Seq<char>)>;

/// Compilation outcome of one schema node: the rule list afterwards, and the
/// name of the rule that matches the node or the error message.
pub type NodeOutcome = (Rules, Result<Seq<char>, Seq<char>>);

/// Compilation outcome of a list of nodes: the rule list afterwards, and the
/// pieces made or the error message.
pub type ListOutcome = (Rules, Result<Seq<Seq<char>>, Seq<char>>);

pub const SPACE_PRODUCTION: &'static str = r#"" "?"#;
pub const STRING_PRODUCTION: &'static str = r#""\"" ( [^"\\\x7F\x00-\x1F] | "\\" (["\\bfnrt] | "u" [0-9a-fA-F] [0-9a-fA-F] [0-9a-fA-F] [0-9a-fA-F]) )* "\"" space"#;
pub const INTEGER_PRODUCTION: &'static str = r#""-"? ("0" | [1-9] [0-9]*) space"#;
pub const NUMBER_PRODUCTION: &'static str = r#""-"? ("0" | [1-9] [0-9]*) ("." [0-9]+)? ([eE] [-+]? [0-9]+)? space"#;
pub const BOOLEAN_PRODUCTION: &'static str = r#"("true" | "false") space"#;
pub const NULL_PRODUCTION: &'static str = r#""null" space"#;

// ---------------------------------------------------------------------------
// The rule list

/// Some rule of `rules` is named `name`.
pub open spec fn has_rule(rules: Rules, name: Seq<char>) -> bool {
    exists|i: int| 0 <= i < rules.len() && rules[i].0 == name
}

/// `rules` with a rule `name ::= production` appended, unless a rule of that
/// name exists already (the first definition wins).
pub open spec fn with_rule(rules: Rules, name: Seq<char>, production: Seq<char>) -> Rules {
    if has_rule(rules, name) {
        rules
    } else {
        rules.push((name, production))
    }
}

/// No two rules share a name.
pub open spec fn names_unique(rules: Rules) -> bool {
    forall|i: int, j: int| 0 <= i < j < rules.len() ==> rules[i].0 != rules[j].0
}

/// The built-in rules: JSON whitespace and the scalar types.
pub open spec fn is_primitive_name(name: Seq<char>) -> bool {
    ||| name == "space"@
    ||| name == "string"@
    ||| name == "integer"@
    ||| name == "number"@
    ||| name == "boolean"@
    ||| name == "null"@
}

pub open spec fn primitive_production(name: Seq<char>) -> Seq<char> {
    if name == "space"@ {
        SPACE_PRODUCTION@
    } else if name == "string"@ {
        STRING_PRODUCTION@
    } else if name == "integer"@ {
        INTEGER_PRODUCTION@
    } else if name == "number"@ {
        NUMBER_PRODUCTION@
    } else if name == "boolean"@ {
        BOOLEAN_PRODUCTION@
    } else {
        NULL_PRODUCTION@
    }
}

/// `rules` with the built-in rule `name` (and the `space` rule it uses).
pub open spec fn with_primitive(rules: Rules, name: Seq<char>) -> Rules {
    let with_space = with_rule(rules, "space"@, SPACE_PRODUCTION@);
    if name == "space"@ {
        with_space
    } else {
        with_rule(with_space, name, primitive_production(name))
    }
}

// ---------------------------------------------------------------------------
// Terminals and names

/// GBNF escape of one character inside a string terminal.
pub open spec fn gbnf_escape_char(c: char) -> Seq<char> {
    let u = c as u32;
    if c == '\\' {
        seq!['\\', '\\']
    } else if c == '"' {
        seq!['\\', '"']
    } else if c == '\n' {
        seq!['\\', 'n']
    } else if c == '\r' {
        seq!['\\', 'r']
    } else if c == '\t' {
        seq!['\\', 't']
    } else if u < 0x20 {
        seq!['\\', 'x', hex_upper((u / 16) as nat), hex_upper((u % 16) as nat)]
    } else {
        seq![c]
    }
}

/// The GBNF string terminal matching exactly `text`.
pub open spec fn gbnf_literal(text: Seq<char>) -> Seq<char> {
    seq!['"'] + text.flat_map(|c: char| gbnf_escape_char(c)) + seq!['"']
}

pub open spec fn is_ascii_alphanumeric(c: char) -> bool {
    ('0' <= c && c <= '9') || ('a' <= c && c <= 'z') || ('A' <= c && c <= 'Z')
}

/// A rule-name fragment for `key`: ASCII letters and digits kept, every
/// other character replaced by `-`.
pub open spec fn sanitized(key: Seq<char>) -> Seq<char> {
    key.map_values(|c: char| if is_ascii_alphanumeric(c) { c } else { '-' })
}

/// The schema keywords accepted on a node.
pub open spec fn is_tolerated(key: Seq<char>) -> bool {
    ||| key == "title"@
    ||| key == "description"@
    ||| key == "default"@
    ||| key == "examples"@
    ||| key == "$schema"@
    ||| key == "$id"@
    ||| key == "type"@
    ||| key == "properties"@
    ||| key == "required"@
    ||| key == "items"@
    ||| key == "minItems"@
    ||| key == "enum"@
    ||| key == "const"@
    ||| key == "anyOf"@
    ||| key == "oneOf"@
    ||| key == "additionalProperties"@
}

/// Index of the first member at or after `from` whose key is not accepted.
pub open spec fn untolerated_from(entries: Seq<(String, JsonValue)>, from: int) -> Option<int>
    decreases entries.len() - from,
{
    if from < 0 || from >= entries.len() {
        None
    } else if !is_tolerated(entries[from].0@) {
        Some(from)
    } else {
        untolerated_from(entries, from + 1)
    }
}

// ---------------------------------------------------------------------------
// Error messages

/// `prefix`, the location `name` (in `Debug` form), then `suffix`.
pub open spec fn msg_at(prefix: Seq<char>, name: Seq<char>, suffix: Seq<char>) -> Seq<char> {
    prefix + debug_quoted(name) + suffix
}

/// `prefix`, the offending `item`, ` at ` and the location, then `suffix`.
pub open spec fn msg_naming(prefix: Seq<char>, item: Seq<char>, name: Seq<char>, suffix: Seq<char>) -> Seq<char> {
    prefix + debug_quoted(item) + " at "@ + debug_quoted(name) + suffix
}

/// `prefix`, the location, `middle`, then the JSON text of the offending value.
pub open spec fn msg_showing(prefix: Seq<char>, name: Seq<char>, middle: Seq<char>, value: JsonValue) -> Seq<char> {
    prefix + debug_quoted(name) + middle + json_text(value)
}

pub open spec fn unsupported_keyword_message(key: Seq<char>, name: Seq<char>) -> Seq<char> {
    msg_naming("unsupported JSON Schema keyword "@, key, name,
        " — supported: type/properties/required/items/minItems/enum/const/anyOf/oneOf"@)
}

pub open spec fn optional_property_message(key: Seq<char>, name: Seq<char>) -> Seq<char> {
    msg_naming("optional properties are not supported: "@, key, name,
        " is missing from \"required\" — list every property or drop \"required\""@)
}

// ---------------------------------------------------------------------------
// Literals

/// The GBNF terminal for an exact JSON scalar (an `enum` member or `const`).
pub open spec fn terminal_for(value: JsonValue, name: Seq<char>) -> Result<Seq<char>, Seq<char>> {
    match value {
        JsonValue::Array(_) | JsonValue::Object(_) => Err(msg_at("enum/const at "@, name,
            " supports only strings, numbers, booleans, and null"@)),
        _ => Ok(gbnf_literal(json_text(value))),
    }
}

/// Terminals for `values[from..]`, or the first failure.
pub open spec fn terminals_for(values: Seq<JsonValue>, name: Seq<char>, from: int) -> Result<Seq<Seq<char>>, Seq<char>>
    decreases values.len() - from,
{
    if from < 0 || from >= values.len() {
        Ok(seq![])
    } else {
        match terminal_for(values[from], name) {
            Err(m) => Err(m),
            Ok(t) => match terminals_for(values, name, from + 1) {
                Err(m) => Err(m),
                Ok(rest) => Ok(seq![t] + rest),
            },
        }
    }
}

/// `pieces` put in front of the pieces of a list outcome.
pub open spec fn prepend(pieces: Seq<Seq<char>>, outcome: ListOutcome) -> ListOutcome {
    match outcome.1 {
        Ok(rest) => (outcome.0, Ok(pieces + rest)),
        Err(m) => (outcome.0, Err(m)),
    }
}

/// The message for a node whose rule name another sub-schema already took.
pub open spec fn clash_message(name: Seq<char>) -> Seq<char> {
    msg_at("the rule name "@, name,
        " is already taken by another sub-schema — keys must stay distinct once every character other than an ASCII letter or digit becomes '-'"@)
}

/// Some rule of `rules` is exactly `name ::= production`.
pub open spec fn defines(rules: Rules, name: Seq<char>, production: Seq<char>) -> bool {
    exists|i: int| 0 <= i < rules.len() && rules[i] == (name, production)
}

/// Adds the rule of the node named `name`. An existing rule of that name is
/// reused when it is the same rule; one with another production, made for
/// another sub-schema, is never kept in its place: that is an error.
pub open spec fn add_node_rule(rules: Rules, name: Seq<char>, production: Seq<char>) -> NodeOutcome {
    if defines(rules, name, production) {
        (rules, Ok(name))
    } else if has_rule(rules, name) {
        (rules, Err(clash_message(name)))
    } else {
        (rules.push((name, production)), Ok(name))
    }
}

/// The production of a `minItems` 0 or 1 array of `item`.
pub open spec fn array_production(item: Seq<char>, min_items: u64) -> Seq<char> {
    if min_items == 0 {
        "\"[\" space ("@ + item + " (\",\" space "@ + item + ")*)? \"]\" space"@
    } else {
        "\"[\" space "@ + item + " (\",\" space "@ + item + ")* \"]\" space"@
    }
}

/// The `minItems` a JSON value states: a non-negative integer.
pub open spec fn json_as_u64(v: JsonValue) -> Option<u64> {
    match v {
        JsonValue::Number(JsonNumber::PosInt(n)) => Some(n),
        _ => None,
    }
}

/// Some string of `list` is `key`.
pub open spec fn lists_key(list: Seq<JsonValue>, key: Seq<char>) -> bool {
    exists|j: int| 0 <= j < list.len() && (#[trigger] list[j] matches JsonValue::String(s) && s@ == key)
}

/// Index of the first property at or after `from` that the list does not name.
pub open spec fn unlisted_from(props: Seq<(String, JsonValue)>, list: Seq<JsonValue>, from: int) -> Option<int>
    decreases props.len() - from,
{
    if from < 0 || from >= props.len() {
        None
    } else if !lists_key(list, props[from].0@) {
        Some(from)
    } else {
        unlisted_from(props, list, from + 1)
    }
}

// ---------------------------------------------------------------------------
// Compilation

/// Compiles one schema node into rules; the result names the rule matching it.
pub open spec fn compile_node(rules: Rules, schema: JsonValue, name: Seq<char>) -> NodeOutcome
    decreases json_size(schema), 6nat, 0int,
{
    match schema {
        JsonValue::Object(entries) => match untolerated_from(entries@, 0) {
            Some(i) => (rules, Err(unsupported_keyword_message(entries@[i].0@, name))),
            None => compile_entries(rules, entries@, name),
        },
        _ => (rules, Err(msg_showing("schema node at "@, name, " must be an object, got "@, schema))),
    }
}

/// Compiles an object node whose keywords are all accepted.
pub open spec fn compile_entries(rules: Rules, entries: Seq<(String, JsonValue)>, name: Seq<char>) -> NodeOutcome
    decreases 1 + entries_size(entries), 5nat, 0int,
{
    if let Some(values) = member(entries, "enum"@) {
        match values {
            JsonValue::Array(list) => if list@.len() == 0 {
                (rules, Err(msg_at("\"enum\" at "@, name, " is empty"@)))
            } else {
                match terminals_for(list@, name, 0) {
                    Err(m) => (rules, Err(m)),
                    Ok(terms) => add_node_rule(with_primitive(rules, "space"@), name,
                        "("@ + join(terms, " | "@) + ") space"@),
                }
            },
            _ => (rules, Err(msg_at("\"enum\" at "@, name, " must be an array"@))),
        }
    } else if let Some(value) = member(entries, "const"@) {
        match terminal_for(value, name) {
            Err(m) => (rules, Err(m)),
            Ok(t) => add_node_rule(with_primitive(rules, "space"@), name, t + " space"@),
        }
    } else if member(entries, "anyOf"@) is Some {
        compile_combinator(rules, entries, "anyOf"@, name)
    } else if member(entries, "oneOf"@) is Some {
        compile_combinator(rules, entries, "oneOf"@, name)
    } else {
        compile_by_type(rules, entries, name)
    }
}

/// The rule `name ::= ( a | b | ... )` over the alternatives an outcome made.
pub open spec fn close_alternation(outcome: ListOutcome, name: Seq<char>) -> NodeOutcome {
    match outcome.1 {
        Err(m) => (outcome.0, Err(m)),
        Ok(alternatives) => add_node_rule(outcome.0, name, "("@ + join(alternatives, " | "@) + ")"@),
    }
}

/// The rule `name ::= "{" space ... "}" space` over the pieces an outcome made.
pub open spec fn close_object(outcome: ListOutcome, name: Seq<char>) -> NodeOutcome {
    match outcome.1 {
        Err(m) => (outcome.0, Err(m)),
        Ok(pieces) => add_node_rule(outcome.0, name,
            join(seq!["\"{\" space"@] + pieces + seq!["\"}\" space"@], " "@)),
    }
}

/// Compiles `anyOf` / `oneOf` (the member `key`) as an alternation.
pub open spec fn compile_combinator(rules: Rules, entries: Seq<(String, JsonValue)>, key: Seq<char>, name: Seq<char>) -> NodeOutcome
    decreases 1 + entries_size(entries), 4nat, 0int,
{
    proof {
        lemma_member_size(entries, key);
    }
    let label = seq!['"'] + key + seq!['"'];
    match member(entries, key) {
        Some(JsonValue::Array(list)) => if list@.len() == 0 {
            (rules, Err(msg_at(label + " at "@, name, " is empty"@)))
        } else {
            close_alternation(compile_variants(rules, list@, name, 0), name)
        },
        _ => (rules, Err(msg_at(label + " at "@, name, " must be an array"@))),
    }
}

/// Compiles `list[from..]`, the `i`-th one under the name `name-i`.
pub open spec fn compile_variants(rules: Rules, list: Seq<JsonValue>, name: Seq<char>, from: int) -> ListOutcome
    decreases 1 + items_size(list), 3nat, list.len() - from,
{
    if from < 0 || from >= list.len() {
        (rules, Ok(seq![]))
    } else {
        proof {
            lemma_item_size(list, from);
        }
        let (r, res) = compile_node(rules, list[from], name + seq!['-'] + decimal(from as nat));
        match res {
            Err(m) => (r, Err(m)),
            Ok(rule) => prepend(seq![rule], compile_variants(r, list, name, from + 1)),
        }
    }
}

/// Compiles a node by its `type` member.
pub open spec fn compile_by_type(rules: Rules, entries: Seq<(String, JsonValue)>, name: Seq<char>) -> NodeOutcome
    decreases 1 + entries_size(entries), 4nat, 0int,
{
    match member(entries, "type"@) {
        Some(JsonValue::String(t)) => compile_typed(rules, entries, t@, name),
        Some(JsonValue::Array(types)) => if types@.len() == 0 {
            (rules, Err(msg_at("\"type\" array at "@, name, " is empty"@)))
        } else {
            close_alternation(compile_type_list(rules, entries, types@, name, 0), name)
        },
        Some(other) => (rules, Err(msg_showing("\"type\" at "@, name,
            " must be a string or array of strings, got "@, other))),
        None => (rules, Err(msg_at("schema node at "@, name, " needs one of: type, enum, const, anyOf, oneOf"@))),
    }
}

/// Compiles the node once per type name of `types[from..]`, the type `t`
/// under the name `name-t`.
pub open spec fn compile_type_list(rules: Rules, entries: Seq<(String, JsonValue)>, types: Seq<JsonValue>, name: Seq<char>, from: int) -> ListOutcome
    decreases 1 + entries_size(entries), 3nat, types.len() - from,
{
    if from < 0 || from >= types.len() {
        (rules, Ok(seq![]))
    } else {
        match types[from] {
            JsonValue::String(t) => {
                let (r, res) = compile_typed(rules, entries, t@, name + seq!['-'] + t@);
                match res {
                    Err(m) => (r, Err(m)),
                    Ok(rule) => prepend(seq![rule], compile_type_list(r, entries, types, name, from + 1)),
                }
            },
            _ => (rules, Err(msg_at("\"type\" array at "@, name, " must hold strings"@))),
        }
    }
}

/// Compiles the node as the type named `t`.
pub open spec fn compile_typed(rules: Rules, entries: Seq<(String, JsonValue)>, t: Seq<char>, name: Seq<char>) -> NodeOutcome
    decreases 1 + entries_size(entries), 2nat, 0int,
{
    if t == "string"@ || t == "integer"@ || t == "number"@ || t == "boolean"@ || t == "null"@ {
        (with_primitive(rules, t), Ok(t))
    } else if t == "object"@ {
        compile_object(rules, entries, name)
    } else if t == "array"@ {
        compile_array(rules, entries, name)
    } else {
        (rules, Err(msg_naming("unsupported \"type\" "@, t, name, seq![])))
    }
}

/// The error a `required` list raises for `props`, if any.
pub open spec fn required_problem(entries: Seq<(String, JsonValue)>, props: Seq<(String, JsonValue)>, name: Seq<char>) -> Option<Seq<char>> {
    match member(entries, "required"@) {
        None => None,
        Some(JsonValue::Array(list)) => match unlisted_from(props, list@, 0) {
            Some(i) => Some(optional_property_message(props[i].0@, name)),
            None => None,
        },
        Some(_) => Some(msg_at("\"required\" at "@, name, " must be an array"@)),
    }
}

/// Compiles an object type: every property, in declaration order.
pub open spec fn compile_object(rules: Rules, entries: Seq<(String, JsonValue)>, name: Seq<char>) -> NodeOutcome
    decreases 1 + entries_size(entries), 1nat, 0int,
{
    proof {
        lemma_member_size(entries, "properties"@);
    }
    match member(entries, "properties"@) {
        Some(JsonValue::Object(props)) => if props@.len() == 0 {
            (rules, Err(msg_at("object at "@, name, " has no properties"@)))
        } else if member(entries, "additionalProperties"@) matches Some(extra)
            && !(extra matches JsonValue::Bool(false)) {
            (rules, Err(msg_at("\"additionalProperties\" at "@, name,
                " must be false when present — the grammar emits exactly the declared properties"@)))
        } else if let Some(m) = required_problem(entries, props@, name) {
            (rules, Err(m))
        } else {
            close_object(compile_properties(with_primitive(rules, "space"@), props@, name, 0), name)
        },
        _ => (rules, Err(msg_at("object at "@, name,
            " needs a \"properties\" map — free-form objects are not supported"@))),
    }
}

/// The piece of an object production that matches property `key` with value rule `rule`.
pub open spec fn property_piece(key: Seq<char>, rule: Seq<char>) -> Seq<char> {
    gbnf_literal(json_quote(key)) + " space \":\" space "@ + rule
}

/// Compiles `props[from..]`; the pieces are the members of the object
/// production, with a `","` piece before every member but the first.
pub open spec fn compile_properties(rules: Rules, props: Seq<(String, JsonValue)>, name: Seq<char>, from: int) -> ListOutcome
    decreases 1 + entries_size(props), 0nat, props.len() - from,
{
    if from < 0 || from >= props.len() {
        (rules, Ok(seq![]))
    } else {
        proof {
            lemma_entry_size(props, from);
        }
        let (r, res) = compile_node(rules, props[from].1, name + seq!['-'] + sanitized(props[from].0@));
        match res {
            Err(m) => (r, Err(m)),
            Ok(rule) => {
                let piece = property_piece(props[from].0@, rule);
                let pieces = if from > 0 { seq!["\",\" space"@, piece] } else { seq![piece] };
                prepend(pieces, compile_properties(r, props, name, from + 1))
            },
        }
    }
}

/// The `minItems` an array node states, when it is 0 or 1 (absent means 0).
pub open spec fn min_items_of(entries: Seq<(String, JsonValue)>) -> Option<u64> {
    match member(entries, "minItems"@) {
        None => Some(0u64),
        Some(v) => match json_as_u64(v) {
            Some(n) => if n <= 1 { Some(n) } else { None },
            None => None,
        },
    }
}

/// Compiles an array type.
pub open spec fn compile_array(rules: Rules, entries: Seq<(String, JsonValue)>, name: Seq<char>) -> NodeOutcome
    decreases 1 + entries_size(entries), 1nat, 0int,
{
    proof {
        lemma_member_size(entries, "items"@);
    }
    match member(entries, "items"@) {
        None => (rules, Err(msg_at("array at "@, name, " needs \"items\" — untyped arrays are not supported"@))),
        Some(items) => match min_items_of(entries) {
            None => (rules, Err(msg_at("\"minItems\" at "@, name,
                " must be 0 or 1 — larger minimums are not supported"@))),
            Some(min) => {
                let (r, res) = compile_node(rules, items, name + seq!['-'] + "item"@);
                match res {
                    Err(m) => (r, Err(m)),
                    Ok(item) => add_node_rule(with_primitive(r, "space"@), name, array_production(item, min)),
                }
            },
        },
    }
}

/// The text of a rule list: one `name ::= production` line per rule.
pub open spec fn rules_text(rules: Rules) -> Seq<char> {
    rules.map_values(|r: (Seq<char>, Seq<char>)| r.0 + " ::= "@ + r.1 + seq!['\n']).flatten()
}

/// The GBNF grammar for `schema` (rule `root` matches it), or the message of
/// the first problem found.
pub open spec fn gbnf_document(schema: JsonValue) -> Result<Seq<char>, Seq<char>> {
    let (rules, res) = compile_node(seq![], schema, "root"@);
    match res {
        Err(m) => Err(m),
        Ok(root) => {
            let alias = if root == "root"@ { seq![] } else { "root ::= "@ + root + seq!['\n'] };
            Ok(alias + rules_text(rules))
        },
    }
}

/// `e` is the error the compiler reports for `message`.
pub open spec fn is_schema_error(e: InferError, message: Seq<char>) -> bool {
    is_invalid_option(e, "schema"@, message)
}

/// Terminals already made, put in front of the terminals of the rest.
pub open spec fn prefix_terminals(done: Seq<Seq<char>>, rest: Result<Seq<Seq<char>>, Seq<char>>) -> Result<Seq<Seq<char>>, Seq<char>> {
    match rest {
        Ok(ts) => Ok(done + ts),
        Err(m) => Err(m),
    }
}

/// `res` reports the node outcome `outcome`, the builder holding `rules`
/// afterwards (on success and on failure alike).
pub open spec fn node_result(res: Result<String, InferError>, rules: Rules, outcome: NodeOutcome) -> bool {
    &&& rules == outcome.0
    &&& match outcome.1 {
        Ok(n) => res matches Ok(s) && s@ == n,
        Err(m) => res matches Err(e) && is_schema_error(e, m),
    }
}

// ---------------------------------------------------------------------------
// Executable compiler

/// The error the compiler reports: an invalid `schema` option.
pub fn schema_error(message: String) -> (e: InferError)
    ensures
        is_schema_error(e, message@),
{
    invalid_option("schema", message)
}

fn error_at(prefix: &str, name: &str, suffix: &str) -> (e: InferError)
    ensures
        is_schema_error(e, msg_at(prefix@, name@, suffix@)),
{
    let mut m = prefix.to_owned();
    let d = debug_str(name);
    m.append(d.as_str());
    m.append(suffix);
    schema_error(m)
}

fn error_naming(prefix: &str, item: &str, name: &str, suffix: &str) -> (e: InferError)
    ensures
        is_schema_error(e, msg_naming(prefix@, item@, name@, suffix@)),
{
    let mut m = prefix.to_owned();
    let d = debug_str(item);
    m.append(d.as_str());
    m.append(" at ");
    let d = debug_str(name);
    m.append(d.as_str());
    m.append(suffix);
    schema_error(m)
}

fn error_showing(prefix: &str, name: &str, middle: &str, value: &JsonValue) -> (e: InferError)
    ensures
        is_schema_error(e, msg_showing(prefix@, name@, middle@, *value)),
{
    let mut m = prefix.to_owned();
    let d = debug_str(name);
    m.append(d.as_str());
    m.append(middle);
    let t = to_json_text(value);
    m.append(t.as_str());
    schema_error(m)
}

fn push_gbnf_escape(out: &mut String, c: char)
    ensures
        final(out)@ == old(out)@ + gbnf_escape_char(c),
{
    let u = c as u32;
    if c == '\\' {
        push_char(out, '\\');
        push_char(out, '\\');
    } else if c == '"' {
        push_char(out, '\\');
        push_char(out, '"');
    } else if c == '\n' {
        push_char(out, '\\');
        push_char(out, 'n');
    } else if c == '\r' {
        push_char(out, '\\');
        push_char(out, 'r');
    } else if c == '\t' {
        push_char(out, '\\');
        push_char(out, 't');
    } else if u < 0x20 {
        push_char(out, '\\');
        push_char(out, 'x');
        push_char(out, hex_digit_upper(u / 16));
        push_char(out, hex_digit_upper(u % 16));
    } else {
        push_char(out, c);
    }
    assert(final(out)@ =~= old(out)@ + gbnf_escape_char(c));
}

/// Quotes arbitrary text as a GBNF string terminal (`"..."` with `\` and `"`
/// escaped, control characters as `\xNN`).
pub fn gbnf_string_literal(text: &str) -> (out: String)
    ensures
        out@ == gbnf_literal(text@),
{
    let cs = chars_of(text);
    let mut out = String::new();
    push_char(&mut out, '"');
    let mut i: usize = 0;
    while i < cs.len()
        invariant
            i <= cs@.len(),
            cs@ == text@,
            out@ == seq!['"'] + cs@.take(i as int).flat_map(|c: char| gbnf_escape_char(c)),
        decreases cs@.len() - i,
    {
        let c = cs[i];
        proof {
            cs@.take(i as int).lemma_flat_map_push(|c: char| gbnf_escape_char(c), c);
            assert(cs@.take(i + 1) =~= cs@.take(i as int).push(c));
        }
        push_gbnf_escape(&mut out, c);
        i = i + 1;
        assert(out@ =~= seq!['"'] + cs@.take(i as int).flat_map(|c: char| gbnf_escape_char(c)));
    }
    push_char(&mut out, '"');
    assert(cs@.take(i as int) =~= text@);
    assert(out@ =~= gbnf_literal(text@));
    out
}

/// Rule-name fragment for `key`: ASCII letters and digits kept, anything else `-`.
pub fn sanitize(key: &str) -> (out: String)
    ensures
        out@ == sanitized(key@),
{
    let mut out = String::new();
    for c in it: key.chars()
        invariant
            out@ == sanitized(it.seq().take(it.index() as int)),
    {
        let keep = ('0' <= c && c <= '9') || ('a' <= c && c <= 'z') || ('A' <= c && c <= 'Z');
        if keep {
            push_char(&mut out, c);
        } else {
            push_char(&mut out, '-');
        }
        assert(out@ =~= sanitized(it.seq().take(it.index() + 1)));
    }
    assert(out@ =~= sanitized(key@));
    out
}

fn is_tolerated_key(key: &str) -> (r: bool)
    ensures
        r == is_tolerated(key@),
{
    str_eq(key, "title") || str_eq(key, "description") || str_eq(key, "default")
        || str_eq(key, "examples") || str_eq(key, "$schema") || str_eq(key, "$id")
        || str_eq(key, "type") || str_eq(key, "properties") || str_eq(key, "required")
        || str_eq(key, "items") || str_eq(key, "minItems") || str_eq(key, "enum")
        || str_eq(key, "const") || str_eq(key, "anyOf") || str_eq(key, "oneOf")
        || str_eq(key, "additionalProperties")
}

/// GBNF terminal for an exact JSON scalar (`enum` member or `const`).
fn literal_terminal(value: &JsonValue, name: &str) -> (r: Result<String, InferError>)
    ensures
        match terminal_for(*value, name@) {
            Ok(t) => r matches Ok(s) && s@ == t,
            Err(m) => r matches Err(e) && is_schema_error(e, m),
        },
{
    match value {
        JsonValue::Array(_) | JsonValue::Object(_) => Err(error_at("enum/const at ", name,
            " supports only strings, numbers, booleans, and null")),
        _ => {
            let text = to_json_text(value);
            Ok(gbnf_string_literal(text.as_str()))
        },
    }
}

fn terminals_of(values: &Vec<JsonValue>, name: &str) -> (r: Result<Vec<String>, InferError>)
    ensures
        match terminals_for(values@, name@, 0) {
            Ok(ts) => r matches Ok(v) && views(v@) == ts,
            Err(m) => r matches Err(e) && is_schema_error(e, m),
        },
{
    let mut out: Vec<String> = Vec::new();
    let mut i: usize = 0;
    while i < values.len()
        invariant
            i <= values@.len(),
            terminals_for(values@, name@, 0) == prefix_terminals(views(out@), terminals_for(values@, name@, i as int)),
        decreases values@.len() - i,
    {
        match literal_terminal(&values[i], name) {
            Err(e) => {
                return Err(e);
            },
            Ok(t) => {
                proof {
                    assert(views(out@.push(t)) =~= views(out@).push(t@));
                    assert(views(out@).push(t@) + terminals_for(values@, name@, i + 1)->Ok_0
                        =~= views(out@) + (seq![t@] + terminals_for(values@, name@, i + 1)->Ok_0));
                }
                out.push(t);
            },
        }
        i = i + 1;
    }
    assert(views(out@) + seq![] =~= views(out@));
    Ok(out)
}

/// Rule name → production, in insertion order (stable output makes the
/// grammar diffable and the tests exact).
pub struct Builder {
    rules: Vec<(String, String)>,
}

impl View for Builder {
    type V = Rules;

    closed spec fn view(&self) -> Rules {
        self.rules@.map_values(|r: (String, String)| (r.0@, r.1@))
    }
}

impl Default for Builder {
    fn default() -> (b: Self)
        ensures
            b@ == Seq::<(Seq<char>, Seq<char>)>::empty(),
    {
        let b = Builder { rules: Vec::new() };
        assert(b@ =~= Seq::<(Seq<char>, Seq<char>)>::empty());
        b
    }
}

proof fn lemma_primitive_names()
    ensures
        "space"@ != "string"@,
        "space"@ != "integer"@,
        "space"@ != "number"@,
        "space"@ != "boolean"@,
        "space"@ != "null"@,
        "string"@ != "object"@,
        "integer"@ != "object"@,
        "number"@ != "object"@,
        "boolean"@ != "object"@,
        "null"@ != "object"@,
        "string"@ != "array"@,
        "integer"@ != "array"@,
        "number"@ != "array"@,
        "boolean"@ != "array"@,
        "null"@ != "array"@,
        "object"@ != "array"@,
        "root"@ != "space"@,
        ""@ == Seq::<char>::empty(),
{
    broadcast use vstd::string::group_string_axioms;
    reveal_strlit("space");
    reveal_strlit("string");
    reveal_strlit("integer");
    reveal_strlit("number");
    reveal_strlit("boolean");
    reveal_strlit("null");
    reveal_strlit("object");
    reveal_strlit("array");
    reveal_strlit("root");
    reveal_strlit("");
    assert("space"@[0] != "string"@[0] || "space"@.len() != "string"@.len());
    assert("space"@[0] != "integer"@[0] || "space"@.len() != "integer"@.len());
    assert("space"@[0] != "number"@[0] || "space"@.len() != "number"@.len());
    assert("space"@[0] != "boolean"@[0] || "space"@.len() != "boolean"@.len());
    assert("space"@[0] != "null"@[0] || "space"@.len() != "null"@.len());
    assert("string"@[0] != "object"@[0] || "string"@.len() != "object"@.len());
    assert("integer"@[0] != "object"@[0] || "integer"@.len() != "object"@.len());
    assert("number"@[0] != "object"@[0] || "number"@.len() != "object"@.len());
    assert("boolean"@[0] != "object"@[0] || "boolean"@.len() != "object"@.len());
    assert("null"@[0] != "object"@[0] || "null"@.len() != "object"@.len());
    assert("string"@[0] != "array"@[0] || "string"@.len() != "array"@.len());
    assert("integer"@[0] != "array"@[0] || "integer"@.len() != "array"@.len());
    assert("number"@[0] != "array"@[0] || "number"@.len() != "array"@.len());
    assert("boolean"@[0] != "array"@[0] || "boolean"@.len() != "array"@.len());
    assert("null"@[0] != "array"@[0] || "null"@.len() != "array"@.len());
    assert("object"@[0] != "array"@[0] || "object"@.len() != "array"@.len());
    assert("root"@[0] != "space"@[0] || "root"@.len() != "space"@.len());
}

impl Builder {
    /// The rules built so far, as `(name, production)` pairs.
    pub fn rules(&self) -> (out: &Vec<(String, String)>)
        ensures
            out@.map_values(|r: (String, String)| (r.0@, r.1@)) == self@,
    {
        &self.rules
    }

    /// Adds `name ::= production` unless a rule `name` exists; either way
    /// returns the rule's name.
    pub fn add_rule(&mut self, name: &str, production: &str) -> (r: String)
        ensures
            final(self)@ == with_rule(old(self)@, name@, production@),
            r@ == name@,
    {
        let wanted = name.to_owned();
        let mut i: usize = 0;
        while i < self.rules.len()
            invariant
                i <= self.rules@.len(),
                wanted@ == name@,
                self@ == old(self)@,
                forall|j: int| 0 <= j < i ==> #[trigger] self@[j].0 != name@,
            decreases self.rules@.len() - i,
        {
            if self.rules[i].0 == wanted {
                assert(has_rule(self@, name@)) by {
                    assert(self@[i as int].0 == name@);
                }
                return self.rules[i].0.clone();
            }
            i = i + 1;
        }
        assert(!has_rule(self@, name@));
        let ghost before = self.rules@;
        self.rules.push((wanted, production.to_owned()));
        assert(self@ =~= old(self)@.push((name@, production@))) by {
            assert(self.rules@ =~= before.push(self.rules@[before.len() as int]));
        }
        name.to_owned()
    }

    /// Adds one of the built-in rules (and the `space` rule it uses);
    /// returns its name.
    pub fn primitive(&mut self, name: &str) -> (r: String)
        requires
            is_primitive_name(name@),
        ensures
            final(self)@ == with_primitive(old(self)@, name@),
            r@ == name@,
        decreases if name@ == "space"@ { 0nat } else { 1nat },
    {
        proof {
            lemma_primitive_names();
        }
        if str_eq(name, "space") {
            return self.add_rule("space", SPACE_PRODUCTION);
        }
        self.primitive("space");
        let production = if str_eq(name, "string") {
            STRING_PRODUCTION
        } else if str_eq(name, "integer") {
            INTEGER_PRODUCTION
        } else if str_eq(name, "number") {
            NUMBER_PRODUCTION
        } else if str_eq(name, "boolean") {
            BOOLEAN_PRODUCTION
        } else {
            NULL_PRODUCTION
        };
        self.add_rule(name, production)
    }

    /// Whether a rule named `name` exists.
    pub fn has_rule_named(&self, name: &str) -> (r: bool)
        ensures
            r == has_rule(self@, name@),
    {
        let wanted = name.to_owned();
        let mut i: usize = 0;
        while i < self.rules.len()
            invariant
                i <= self.rules@.len(),
                wanted@ == name@,
                forall|j: int| 0 <= j < i ==> #[trigger] self@[j].0 != name@,
            decreases self.rules@.len() - i,
        {
            if self.rules[i].0 == wanted {
                assert(self@[i as int].0 == name@);
                return true;
            }
            i = i + 1;
        }
        false
    }

    /// Adds the rule of a schema node. A rule of that name is reused when it
    /// is the same rule; one with another production, made for another
    /// sub-schema, is an error, never silently kept in place of this one.
    fn add_node_rule(&mut self, name: &str, production: &str) -> (res: Result<String, InferError>)
        ensures
            node_result(res, final(self)@, add_node_rule(old(self)@, name@, production@)),
    {
        let wanted = name.to_owned();
        let body = production.to_owned();
        let mut named = false;
        let mut same = false;
        let mut i: usize = 0;
        while i < self.rules.len()
            invariant
                i <= self.rules@.len(),
                wanted@ == name@,
                body@ == production@,
                named <==> exists|j: int| 0 <= j < i && #[trigger] self@[j].0 == name@,
                same <==> exists|j: int| 0 <= j < i && #[trigger] self@[j] == (name@, production@),
            decreases self.rules@.len() - i,
        {
            if self.rules[i].0 == wanted {
                assert(self@[i as int].0 == name@);
                named = true;
                if self.rules[i].1 == body {
                    assert(self@[i as int] == (name@, production@));
                    same = true;
                }
            }
            proof {
                if self@[i as int] == (name@, production@) {
                    assert(self.rules@[i as int].0@ == name@ && self.rules@[i as int].1@ == production@);
                }
            }
            i = i + 1;
        }
        assert(named == has_rule(self@, name@));
        assert(same == defines(self@, name@, production@));
        if same {
            return Ok(wanted);
        }
        if named {
            return Err(error_at("the rule name ", name,
                " is already taken by another sub-schema — keys must stay distinct once every character other than an ASCII letter or digit becomes '-'"));
        }
        Ok(self.add_rule(name, production))
    }
}

/// `name` followed by `-` and `suffix`.
fn child_name(name: &str, suffix: &str) -> (out: String)
    ensures
        out@ == name@ + seq!['-'] + suffix@,
{
    let mut out = name.to_owned();
    push_char(&mut out, '-');
    out.append(suffix);
    out
}

/// `name` followed by `-` and the decimal index `i`.
fn indexed_name(name: &str, i: usize) -> (out: String)
    ensures
        out@ == name@ + seq!['-'] + decimal(i as nat),
{
    let mut out = name.to_owned();
    push_char(&mut out, '-');
    push_decimal(&mut out, i as u64);
    out
}

/// `"(" + alternatives joined by " | " + ")"`.
fn alternation(alternatives: &Vec<String>) -> (out: String)
    ensures
        out@ == "("@ + join(views(alternatives@), " | "@) + ")"@,
{
    let mut out = String::from_str("(");
    let joined = join_strings(alternatives, " | ");
    out.append(joined.as_str());
    out.append(")");
    out
}

fn lists_key_exec(list: &Vec<JsonValue>, key: &str) -> (r: bool)
    ensures
        r == lists_key(list@, key@),
{
    let wanted = key.to_owned();
    let mut j: usize = 0;
    while j < list.len()
        invariant
            j <= list@.len(),
            wanted@ == key@,
            forall|k: int| 0 <= k < j ==> !(#[trigger] list@[k] matches JsonValue::String(s) && s@ == key@),
        decreases list@.len() - j,
    {
        if let JsonValue::String(s) = &list[j] {
            if *s == wanted {
                return true;
            }
        }
        j = j + 1;
    }
    false
}

impl Builder {
    /// Compiles one schema node; returns the name of the rule matching it.
    /// Whether it succeeds or fails, every rule made before stays, unchanged
    /// and in place, and (starting from distinct names) no name is defined
    /// twice; the name returned is a defined rule.
    pub fn visit(&mut self, schema: &JsonValue, name: &str) -> (res: Result<String, InferError>)
        ensures
            node_result(res, final(self)@, compile_node(old(self)@, *schema, name@)),
            names_unique(old(self)@) ==> {
                &&& keeps_rules(old(self)@, final(self)@)
                &&& names_unique(final(self)@)
                &&& (res matches Ok(r) ==> has_rule(final(self)@, r@))
            },
        decreases json_size(*schema), 7nat, 0int,
    {
        let ghost before = self@;
        let res = self.visit_node(schema, name);
        proof {
            if names_unique(before) {
                lemma_node_sound(before, *schema, name@);
            }
        }
        res
    }

    /// Compiles one schema node (the work of `visit`).
    fn visit_node(&mut self, schema: &JsonValue, name: &str) -> (res: Result<String, InferError>)
        ensures
            node_result(res, final(self)@, compile_node(old(self)@, *schema, name@)),
        decreases json_size(*schema), 6nat, 0int,
    {
        match schema {
            JsonValue::Object(entries) => {
                let mut i: usize = 0;
                while i < entries.len()
                    invariant
                        i <= entries@.len(),
                        *schema == JsonValue::Object(*entries),
                        untolerated_from(entries@, 0) == untolerated_from(entries@, i as int),
                    decreases entries@.len() - i,
                {
                    if !is_tolerated_key(entries[i].0.as_str()) {
                        assert(untolerated_from(entries@, i as int) == Some(i as int));
                        return Err(error_naming("unsupported JSON Schema keyword ", entries[i].0.as_str(), name,
                            " — supported: type/properties/required/items/minItems/enum/const/anyOf/oneOf"));
                    }
                    i = i + 1;
                }
                self.visit_entries(entries, name)
            },
            _ => Err(error_showing("schema node at ", name, " must be an object, got ", schema)),
        }
    }

    /// Compiles an object node whose keywords are all accepted.
    fn visit_entries(&mut self, entries: &Vec<(String, JsonValue)>, name: &str) -> (res: Result<String, InferError>)
        ensures
            node_result(res, final(self)@, compile_entries(old(self)@, entries@, name@)),
        decreases 1 + entries_size(entries@), 5nat, 0int,
    {
        proof {
            lemma_primitive_names();
        }
        if let Some(values) = get_member(entries, "enum") {
            match values {
                JsonValue::Array(list) => {
                    if list.len() == 0 {
                        return Err(error_at("\"enum\" at ", name, " is empty"));
                    }
                    let terms = match terminals_of(list, name) {
                        Ok(terms) => terms,
                        Err(e) => {
                            return Err(e);
                        },
                    };
                    let joined = join_strings(&terms, " | ");
                    self.primitive("space");
                    let mut production = String::from_str("(");
                    production.append(joined.as_str());
                    production.append(") space");
                    return self.add_node_rule(name, production.as_str());
                },
                _ => {
                    return Err(error_at("\"enum\" at ", name, " must be an array"));
                },
            }
        }
        if let Some(value) = get_member(entries, "const") {
            let terminal = match literal_terminal(value, name) {
                Ok(t) => t,
                Err(e) => {
                    return Err(e);
                },
            };
            self.primitive("space");
            let mut production = terminal;
            production.append(" space");
            return self.add_node_rule(name, production.as_str());
        }
        if get_member(entries, "anyOf").is_some() {
            return self.visit_combinator(entries, "anyOf", name);
        }
        if get_member(entries, "oneOf").is_some() {
            return self.visit_combinator(entries, "oneOf", name);
        }
        self.visit_by_type(entries, name)
    }

    /// Compiles `anyOf` / `oneOf` as an alternation over the sub-schemas.
    fn visit_combinator(&mut self, entries: &Vec<(String, JsonValue)>, key: &str, name: &str) -> (res: Result<String, InferError>)
        ensures
            node_result(res, final(self)@, compile_combinator(old(self)@, entries@, key@, name@)),
        decreases 1 + entries_size(entries@), 4nat, 0int,
    {
        let mut label = String::new();
        push_char(&mut label, '"');
        label.append(key);
        push_char(&mut label, '"');
        label.append(" at ");
        assert(label@ =~= seq!['"'] + key@ + seq!['"'] + " at "@);
        proof {
            lemma_member_size(entries@, key@);
        }
        match get_member(entries, key) {
            Some(JsonValue::Array(list)) => {
                if list.len() == 0 {
                    return Err(error_at(label.as_str(), name, " is empty"));
                }
                let ghost start = self@;
                let mut alternatives: Vec<String> = Vec::new();
                let mut i: usize = 0;
                while i < list.len()
                    invariant
                        i <= list@.len(),
                        1 + items_size(list@) <= entries_size(entries@),
                        compile_combinator(old(self)@, entries@, key@, name@)
                            == close_alternation(compile_variants(start, list@, name@, 0), name@),
                        compile_variants(start, list@, name@, 0)
                            == prepend(views(alternatives@), compile_variants(self@, list@, name@, i as int)),
                    decreases list@.len() - i,
                {
                    proof {
                        lemma_item_size(list@, i as int);
                    }
                    let variant_name = indexed_name(name, i);
                    let ghost before = self@;
                    match self.visit(&list[i], variant_name.as_str()) {
                        Err(e) => {
                            assert(compile_variants(before, list@, name@, i as int).0 == self@ && compile_variants(before, list@, name@, i as int).1 is Err);
                            return Err(e);
                        },
                        Ok(rule) => {
                            proof {
                                let rest = compile_variants(self@, list@, name@, i + 1);
                                assert(views(alternatives@.push(rule)) =~= views(alternatives@) + seq![rule@]);
                                if let Ok(ps) = rest.1 {
                                    assert(views(alternatives@) + seq![rule@] + ps =~= views(alternatives@) + (seq![rule@] + ps));
                                }
                            }
                            alternatives.push(rule);
                        },
                    }
                    i = i + 1;
                }
                assert(views(alternatives@) + Seq::<Seq<char>>::empty() =~= views(alternatives@));
                let production = alternation(&alternatives);
                self.add_node_rule(name, production.as_str())
            },
            _ => Err(error_at(label.as_str(), name, " must be an array")),
        }
    }

    /// Compiles a node by its `type` member.
    fn visit_by_type(&mut self, entries: &Vec<(String, JsonValue)>, name: &str) -> (res: Result<String, InferError>)
        ensures
            node_result(res, final(self)@, compile_by_type(old(self)@, entries@, name@)),
        decreases 1 + entries_size(entries@), 4nat, 0int,
    {
        match get_member(entries, "type") {
            Some(JsonValue::String(t)) => self.visit_typed(entries, t.as_str(), name),
            Some(JsonValue::Array(types)) => {
                if types.len() == 0 {
                    return Err(error_at("\"type\" array at ", name, " is empty"));
                }
                let ghost start = self@;
                let mut alternatives: Vec<String> = Vec::new();
                let mut i: usize = 0;
                while i < types.len()
                    invariant
                        i <= types@.len(),
                        compile_by_type(old(self)@, entries@, name@)
                            == close_alternation(compile_type_list(start, entries@, types@, name@, 0), name@),
                        compile_type_list(start, entries@, types@, name@, 0)
                            == prepend(views(alternatives@), compile_type_list(self@, entries@, types@, name@, i as int)),
                    decreases types@.len() - i,
                {
                    match &types[i] {
                        JsonValue::String(t) => {
                            let typed_name = child_name(name, t.as_str());
                            let ghost before = self@;
                            match self.visit_typed(entries, t.as_str(), typed_name.as_str()) {
                                Err(e) => {
                                    assert(compile_type_list(before, entries@, types@, name@, i as int).0 == self@ && compile_type_list(before, entries@, types@, name@, i as int).1 is Err);
                                    return Err(e);
                                },
                                Ok(rule) => {
                                    proof {
                                        let rest = compile_type_list(self@, entries@, types@, name@, i + 1);
                                        assert(views(alternatives@.push(rule)) =~= views(alternatives@) + seq![rule@]);
                                        if let Ok(ps) = rest.1 {
                                            assert(views(alternatives@) + seq![rule@] + ps =~= views(alternatives@) + (seq![rule@] + ps));
                                        }
                                    }
                                    alternatives.push(rule);
                                },
                            }
                        },
                        _ => {
                            assert(compile_type_list(self@, entries@, types@, name@, i as int).0 == self@ && compile_type_list(self@, entries@, types@, name@, i as int).1 is Err);
                            return Err(error_at("\"type\" array at ", name, " must hold strings"));
                        },
                    }
                    i = i + 1;
                }
                assert(views(alternatives@) + Seq::<Seq<char>>::empty() =~= views(alternatives@));
                let production = alternation(&alternatives);
                self.add_node_rule(name, production.as_str())
            },
            Some(other) => Err(error_showing("\"type\" at ", name,
                " must be a string or array of strings, got ", other)),
            None => Err(error_at("schema node at ", name, " needs one of: type, enum, const, anyOf, oneOf")),
        }
    }

    /// Compiles the node as the type named `type_word`.
    fn visit_typed(&mut self, entries: &Vec<(String, JsonValue)>, type_word: &str, name: &str) -> (res: Result<String, InferError>)
        ensures
            node_result(res, final(self)@, compile_typed(old(self)@, entries@, type_word@, name@)),
        decreases 1 + entries_size(entries@), 2nat, 0int,
    {
        proof {
            lemma_primitive_names();
        }
        if str_eq(type_word, "string") || str_eq(type_word, "integer") || str_eq(type_word, "number")
            || str_eq(type_word, "boolean") || str_eq(type_word, "null") {
            return Ok(self.primitive(type_word));
        }
        if str_eq(type_word, "object") {
            return self.visit_object(entries, name);
        }
        if str_eq(type_word, "array") {
            return self.visit_array(entries, name);
        }
        Err(error_naming("unsupported \"type\" ", type_word, name, ""))
    }

    /// Compiles an object type: all properties, in declaration order.
    pub fn visit_object(&mut self, entries: &Vec<(String, JsonValue)>, name: &str) -> (res: Result<String, InferError>)
        ensures
            node_result(res, final(self)@, compile_object(old(self)@, entries@, name@)),
        decreases 1 + entries_size(entries@), 1nat, 0int,
    {
        proof {
            lemma_primitive_names();
            lemma_member_size(entries@, "properties"@);
        }
        let props = match get_member(entries, "properties") {
            Some(JsonValue::Object(props)) => props,
            _ => {
                return Err(error_at("object at ", name,
                    " needs a \"properties\" map — free-form objects are not supported"));
            },
        };
        if props.len() == 0 {
            return Err(error_at("object at ", name, " has no properties"));
        }
        if let Some(additional) = get_member(entries, "additionalProperties") {
            match additional {
                JsonValue::Bool(false) => {},
                _ => {
                    return Err(error_at("\"additionalProperties\" at ", name,
                        " must be false when present — the grammar emits exactly the declared properties"));
                },
            }
        }
        if let Some(required) = get_member(entries, "required") {
            match required {
                JsonValue::Array(list) => {
                    let mut k: usize = 0;
                    while k < props.len()
                        invariant
                            k <= props@.len(),
                            member(entries@, "properties"@) == Some(JsonValue::Object(*props)),
                            member(entries@, "required"@) == Some(JsonValue::Array(*list)),
                            props@.len() > 0,
                            !(member(entries@, "additionalProperties"@) matches Some(extra)
                                && !(extra matches JsonValue::Bool(false))),
                            unlisted_from(props@, list@, 0) == unlisted_from(props@, list@, k as int),
                        decreases props@.len() - k,
                    {
                        if !lists_key_exec(list, props[k].0.as_str()) {
                            assert(unlisted_from(props@, list@, k as int) == Some(k as int));
                            return Err(error_naming("optional properties are not supported: ", props[k].0.as_str(), name,
                                " is missing from \"required\" — list every property or drop \"required\""));
                        }
                        k = k + 1;
                    }
                },
                _ => {
                    return Err(error_at("\"required\" at ", name, " must be an array"));
                },
            }
        }
        self.primitive("space");
        let ghost start = self@;
        let mut parts: Vec<String> = Vec::new();
        parts.push(String::from_str("\"{\" space"));
        let mut i: usize = 0;
        while i < props.len()
            invariant
                i <= props@.len(),
                1 + entries_size(props@) <= entries_size(entries@),
                compile_object(old(self)@, entries@, name@)
                    == close_object(compile_properties(start, props@, name@, 0), name@),
                views(parts@).len() >= 1,
                views(parts@)[0] == "\"{\" space"@,
                compile_properties(start, props@, name@, 0)
                    == prepend(views(parts@).drop_first(), compile_properties(self@, props@, name@, i as int)),
            decreases props@.len() - i,
        {
            proof {
                lemma_entry_size(props@, i as int);
            }
            let key = props[i].0.as_str();
            let sanitized_key = sanitize(key);
            let value_name = child_name(name, sanitized_key.as_str());
            let ghost before_visit = self@;
            let value_rule = match self.visit(&props[i].1, value_name.as_str()) {
                Ok(rule) => rule,
                Err(e) => {
                    assert(compile_properties(before_visit, props@, name@, i as int).0 == self@ && compile_properties(before_visit, props@, name@, i as int).1 is Err);
                    return Err(e);
                },
            };
            let ghost before = views(parts@);
            if i > 0 {
                parts.push(String::from_str("\",\" space"));
            }
            let encoded_key = json_string_literal(key);
            let mut piece = gbnf_string_literal(encoded_key.as_str());
            piece.append(" space \":\" space ");
            piece.append(value_rule.as_str());
            parts.push(piece);
            proof {
                let p = property_piece(props@[i as int].0@, value_rule@);
                let added = if i > 0 { seq!["\",\" space"@, p] } else { seq![p] };
                assert(views(parts@) =~= before + added);
                assert(views(parts@).drop_first() =~= before.drop_first() + added);
                let rest = compile_properties(self@, props@, name@, i + 1);
                if let Ok(ps) = rest.1 {
                    assert(before.drop_first() + added + ps =~= before.drop_first() + (added + ps));
                }
            }
            i = i + 1;
        }
        let ghost pieces = views(parts@).drop_first();
        parts.push(String::from_str("\"}\" space"));
        assert(views(parts@) =~= seq!["\"{\" space"@] + pieces + seq!["\"}\" space"@]);
        assert(pieces + Seq::<Seq<char>>::empty() =~= pieces);
        let production = join_strings(&parts, " ");
        self.add_node_rule(name, production.as_str())
    }

    /// Compiles an array type (`minItems` 0 or 1).
    pub fn visit_array(&mut self, entries: &Vec<(String, JsonValue)>, name: &str) -> (res: Result<String, InferError>)
        ensures
            node_result(res, final(self)@, compile_array(old(self)@, entries@, name@)),
        decreases 1 + entries_size(entries@), 1nat, 0int,
    {
        proof {
            lemma_primitive_names();
            lemma_member_size(entries@, "items"@);
        }
        let items = match get_member(entries, "items") {
            Some(items) => items,
            None => {
                return Err(error_at("array at ", name, " needs \"items\" — untyped arrays are not supported"));
            },
        };
        let stated: Option<u64> = match get_member(entries, "minItems") {
            None => Some(0),
            Some(JsonValue::Number(JsonNumber::PosInt(n))) => if *n <= 1 { Some(*n) } else { None },
            Some(_) => None,
        };
        assert(stated == min_items_of(entries@));
        let min_items: u64 = match stated {
            Some(n) => n,
            None => {
                return Err(error_at("\"minItems\" at ", name,
                    " must be 0 or 1 — larger minimums are not supported"));
            },
        };
        let item_name = child_name(name, "item");
        let item_rule = match self.visit(items, item_name.as_str()) {
            Ok(rule) => rule,
            Err(e) => {
                return Err(e);
            },
        };
        self.primitive("space");
        let mut production = String::new();
        if min_items == 0 {
            production.append("\"[\" space (");
            production.append(item_rule.as_str());
            production.append(" (\",\" space ");
            production.append(item_rule.as_str());
            production.append(")*)? \"]\" space");
        } else {
            production.append("\"[\" space ");
            production.append(item_rule.as_str());
            production.append(" (\",\" space ");
            production.append(item_rule.as_str());
            production.append(")* \"]\" space");
        }
        self.add_node_rule(name, production.as_str())
    }
}

/// The text of `rules[..n]`.
proof fn lemma_rules_text_push(rules: Rules, n: int)
    requires
        0 <= n < rules.len(),
    ensures
        rules_text(rules.take(n + 1)) == rules_text(rules.take(n)) + rules[n].0 + " ::= "@ + rules[n].1 + seq!['\n'],
{
    let f = |r: (Seq<char>, Seq<char>)| r.0 + " ::= "@ + r.1 + seq!['\n'];
    assert(rules.take(n + 1).map_values(f) =~= rules.take(n).map_values(f).push(f(rules[n])));
    rules.take(n).map_values(f).lemma_flatten_push(f(rules[n]));
}

/// Compiles a JSON Schema document into a GBNF grammar whose `root` rule
/// matches it. Fails on schema keywords outside the supported subset.
pub fn json_schema_to_gbnf(schema: &JsonValue) -> (res: Result<String, InferError>)
    ensures
        match gbnf_document(*schema) {
            Ok(text) => res matches Ok(s) && s@ == text,
            Err(m) => res matches Err(e) && is_schema_error(e, m),
        },
{
    let mut builder = Builder::default();
    let root = match builder.visit(schema, "root") {
        Ok(root) => root,
        Err(e) => {
            return Err(e);
        },
    };
    let mut out = String::new();
    let ghost alias: Seq<char> = if root@ == "root"@ { seq![] } else { "root ::= "@ + root@ + seq!['\n'] };
    // `root` must be a rule name, not an inline production; alias if needed.
    if !str_eq(root.as_str(), "root") {
        out.append("root ::= ");
        out.append(root.as_str());
        push_char(&mut out, '\n');
    }
    assert(out@ =~= alias);
    let rules = builder.rules();
    let ghost all: Rules = builder@;
    let mut i: usize = 0;
    while i < rules.len()
        invariant
            i <= rules@.len(),
            rules@.map_values(|r: (String, String)| (r.0@, r.1@)) == all,
            out@ == alias + rules_text(all.take(i as int)),
        decreases rules@.len() - i,
    {
        proof {
            lemma_rules_text_push(all, i as int);
        }
        out.append(rules[i].0.as_str());
        out.append(" ::= ");
        out.append(rules[i].1.as_str());
        push_char(&mut out, '\n');
        assert(out@ =~= alias + rules_text(all.take(i + 1)));
        i = i + 1;
    }
    assert(all.take(i as int) =~= all);
    Ok(out)
}

} // verus!
