//! Properties of the schema compiler that hold for every schema.
use vstd::prelude::*;
use crate::grammar::{
    Rules, close_alternation, close_object, compile_array, compile_by_type, compile_combinator,
    compile_entries, compile_node, compile_object, compile_properties, compile_type_list,
    compile_typed, compile_variants, has_rule, names_unique, primitive_production,
    untolerated_from, unsupported_keyword_message, with_primitive, with_rule,
    is_tolerated, add_node_rule, NodeOutcome, ListOutcome,
};
use crate::json::{
    JsonValue, entries_size, items_size, json_size, lemma_entry_size, lemma_item_size,
    lemma_member_size, member,
};
use crate::text::{contains, debug_quoted, hex_upper, occurs_at};
use crate::grammar::{gbnf_escape_char, gbnf_literal, property_piece};
use crate::json::json_quote;

verus! {

/// Every rule of `before` stays, at its place and unchanged, in `after`.
pub open spec fn keeps_rules(before: Rules, after: Rules) -> bool {
    &&& before.len() <= after.len()
    &&& forall|i: int| 0 <= i < before.len() ==> #[trigger] after[i] == before[i]
}

/// Adding a rule keeps the old rules and unique names, and the rule's name
/// is then defined.
pub proof fn lemma_with_rule(rules: Rules, name: Seq<char>, production: Seq<char>)
    requires
        names_unique(rules),
    ensures
        keeps_rules(rules, with_rule(rules, name, production)),
        names_unique(with_rule(rules, name, production)),
        has_rule(with_rule(rules, name, production), name),
{
    if !has_rule(rules, name) {
        let r = rules.push((name, production));
        assert(r[rules.len() as int].0 == name);
        assert forall|i: int, j: int| 0 <= i < j < r.len() implies r[i].0 != r[j].0 by {
            if j == rules.len() {
                assert(rules[i].0 != name);
            }
        }
    }
}

/// Adding a built-in rule keeps the old rules and unique names, and the
/// rule is then defined.
pub proof fn lemma_with_primitive(rules: Rules, name: Seq<char>)
    requires
        names_unique(rules),
    ensures
        keeps_rules(rules, with_primitive(rules, name)),
        names_unique(with_primitive(rules, name)),
        has_rule(with_primitive(rules, name), name),
{
    lemma_with_rule(rules, "space"@, crate::grammar::SPACE_PRODUCTION@);
    let with_space = with_rule(rules, "space"@, crate::grammar::SPACE_PRODUCTION@);
    if name != "space"@ {
        lemma_with_rule(with_space, name, primitive_production(name));
    }
}

/// What compiling a node from `rules` leaves, on success and on failure
/// alike: the old rules kept, names unique, and on success the returned
/// name a defined rule.
pub open spec fn sound_node(rules: Rules, outcome: NodeOutcome) -> bool {
    &&& keeps_rules(rules, outcome.0)
    &&& names_unique(outcome.0)
    &&& (outcome.1 matches Ok(n) ==> has_rule(outcome.0, n))
}

/// What compiling a list of nodes from `rules` leaves, on success and on
/// failure alike: the old rules kept and names unique.
pub open spec fn sound_list(rules: Rules, outcome: ListOutcome) -> bool {
    keeps_rules(rules, outcome.0) && names_unique(outcome.0)
}

proof fn lemma_add_node_rule(rules: Rules, name: Seq<char>, production: Seq<char>)
    requires
        names_unique(rules),
    ensures
        sound_node(rules, add_node_rule(rules, name, production)),
{
    if !has_rule(rules, name) {
        lemma_with_rule(rules, name, production);
    }
}

proof fn lemma_close_alternation(rules: Rules, outcome: ListOutcome, name: Seq<char>)
    requires
        sound_list(rules, outcome),
    ensures
        sound_node(rules, close_alternation(outcome, name)),
{
    if let Ok(alternatives) = outcome.1 {
        lemma_add_node_rule(outcome.0, name, "("@ + crate::text::join(alternatives, " | "@) + ")"@);
    }
}

proof fn lemma_close_object(rules: Rules, outcome: ListOutcome, name: Seq<char>)
    requires
        sound_list(rules, outcome),
    ensures
        sound_node(rules, close_object(outcome, name)),
{
    if let Ok(pieces) = outcome.1 {
        lemma_add_node_rule(outcome.0, name,
            crate::text::join(seq!["\"{\" space"@] + pieces + seq!["\"}\" space"@], " "@));
    }
}

/// Compiling a node, whether it succeeds or fails, keeps every rule made
/// before (unchanged and in place) and never defines a rule name twice; on
/// success the name it returns is a defined rule.
pub proof fn lemma_node_sound(rules: Rules, schema: JsonValue, name: Seq<char>)
    requires
        names_unique(rules),
    ensures
        sound_node(rules, compile_node(rules, schema, name)),
    decreases json_size(schema), 6nat, 0int,
{
    if let JsonValue::Object(entries) = schema {
        if untolerated_from(entries@, 0) is None {
            lemma_entries_sound(rules, entries@, name);
        }
    }
}

proof fn lemma_entries_sound(rules: Rules, entries: Seq<(String, JsonValue)>, name: Seq<char>)
    requires
        names_unique(rules),
    ensures
        sound_node(rules, compile_entries(rules, entries, name)),
    decreases 1 + entries_size(entries), 5nat, 0int,
{
    lemma_with_primitive(rules, "space"@);
    let spaced = with_primitive(rules, "space"@);
    if let Some(values) = member(entries, "enum"@) {
        if let JsonValue::Array(list) = values {
            if let Ok(terms) = crate::grammar::terminals_for(list@, name, 0) {
                lemma_add_node_rule(spaced, name, "("@ + crate::text::join(terms, " | "@) + ") space"@);
            }
        }
    } else if let Some(value) = member(entries, "const"@) {
        if let Ok(t) = crate::grammar::terminal_for(value, name) {
            lemma_add_node_rule(spaced, name, t + " space"@);
        }
    } else if member(entries, "anyOf"@) is Some {
        lemma_combinator_sound(rules, entries, "anyOf"@, name);
    } else if member(entries, "oneOf"@) is Some {
        lemma_combinator_sound(rules, entries, "oneOf"@, name);
    } else {
        lemma_by_type_sound(rules, entries, name);
    }
}

proof fn lemma_combinator_sound(rules: Rules, entries: Seq<(String, JsonValue)>, key: Seq<char>, name: Seq<char>)
    requires
        names_unique(rules),
    ensures
        sound_node(rules, compile_combinator(rules, entries, key, name)),
    decreases 1 + entries_size(entries), 4nat, 0int,
{
    lemma_member_size(entries, key);
    if let Some(JsonValue::Array(list)) = member(entries, key) {
        if list@.len() != 0 {
            lemma_variants_sound(rules, list@, name, 0);
            lemma_close_alternation(rules, compile_variants(rules, list@, name, 0), name);
        }
    }
}

proof fn lemma_variants_sound(rules: Rules, list: Seq<JsonValue>, name: Seq<char>, from: int)
    requires
        names_unique(rules),
    ensures
        sound_list(rules, compile_variants(rules, list, name, from)),
    decreases 1 + items_size(list), 3nat, list.len() - from,
{
    if 0 <= from < list.len() {
        lemma_item_size(list, from);
        let label = name + seq!['-'] + crate::text::decimal(from as nat);
        lemma_node_sound(rules, list[from], label);
        let (r, res) = compile_node(rules, list[from], label);
        if res is Ok {
            lemma_variants_sound(r, list, name, from + 1);
        }
    }
}

proof fn lemma_by_type_sound(rules: Rules, entries: Seq<(String, JsonValue)>, name: Seq<char>)
    requires
        names_unique(rules),
    ensures
        sound_node(rules, compile_by_type(rules, entries, name)),
    decreases 1 + entries_size(entries), 4nat, 0int,
{
    match member(entries, "type"@) {
        Some(JsonValue::String(t)) => {
            lemma_typed_sound(rules, entries, t@, name);
        },
        Some(JsonValue::Array(types)) => {
            if types@.len() != 0 {
                lemma_type_list_sound(rules, entries, types@, name, 0);
                lemma_close_alternation(rules, compile_type_list(rules, entries, types@, name, 0), name);
            }
        },
        _ => {},
    }
}

proof fn lemma_type_list_sound(rules: Rules, entries: Seq<(String, JsonValue)>, types: Seq<JsonValue>, name: Seq<char>, from: int)
    requires
        names_unique(rules),
    ensures
        sound_list(rules, compile_type_list(rules, entries, types, name, from)),
    decreases 1 + entries_size(entries), 3nat, types.len() - from,
{
    if 0 <= from < types.len() {
        if let JsonValue::String(t) = types[from] {
            lemma_typed_sound(rules, entries, t@, name + seq!['-'] + t@);
            let (r, res) = compile_typed(rules, entries, t@, name + seq!['-'] + t@);
            if res is Ok {
                lemma_type_list_sound(r, entries, types, name, from + 1);
            }
        }
    }
}

proof fn lemma_typed_sound(rules: Rules, entries: Seq<(String, JsonValue)>, t: Seq<char>, name: Seq<char>)
    requires
        names_unique(rules),
    ensures
        sound_node(rules, compile_typed(rules, entries, t, name)),
    decreases 1 + entries_size(entries), 2nat, 0int,
{
    if t == "string"@ || t == "integer"@ || t == "number"@ || t == "boolean"@ || t == "null"@ {
        lemma_with_primitive(rules, t);
    } else if t == "object"@ {
        lemma_object_sound(rules, entries, name);
    } else if t == "array"@ {
        lemma_array_sound(rules, entries, name);
    }
}

proof fn lemma_object_sound(rules: Rules, entries: Seq<(String, JsonValue)>, name: Seq<char>)
    requires
        names_unique(rules),
    ensures
        sound_node(rules, compile_object(rules, entries, name)),
    decreases 1 + entries_size(entries), 1nat, 0int,
{
    lemma_member_size(entries, "properties"@);
    if let Some(JsonValue::Object(props)) = member(entries, "properties"@) {
        lemma_with_primitive(rules, "space"@);
        let spaced = with_primitive(rules, "space"@);
        lemma_properties_sound(spaced, props@, name, 0);
        lemma_close_object(spaced, compile_properties(spaced, props@, name, 0), name);
    }
}

proof fn lemma_properties_sound(rules: Rules, props: Seq<(String, JsonValue)>, name: Seq<char>, from: int)
    requires
        names_unique(rules),
    ensures
        sound_list(rules, compile_properties(rules, props, name, from)),
    decreases 1 + entries_size(props), 0nat, props.len() - from,
{
    if 0 <= from < props.len() {
        lemma_entry_size(props, from);
        let label = name + seq!['-'] + crate::grammar::sanitized(props[from].0@);
        lemma_node_sound(rules, props[from].1, label);
        let (r, res) = compile_node(rules, props[from].1, label);
        if res is Ok {
            lemma_properties_sound(r, props, name, from + 1);
        }
    }
}

proof fn lemma_array_sound(rules: Rules, entries: Seq<(String, JsonValue)>, name: Seq<char>)
    requires
        names_unique(rules),
    ensures
        sound_node(rules, compile_array(rules, entries, name)),
    decreases 1 + entries_size(entries), 1nat, 0int,
{
    lemma_member_size(entries, "items"@);
    if let Some(items) = member(entries, "items"@) {
        if let Some(min) = crate::grammar::min_items_of(entries) {
            let label = name + seq!['-'] + "item"@;
            lemma_node_sound(rules, items, label);
            let (r, res) = compile_node(rules, items, label);
            if let Ok(item) = res {
                lemma_with_primitive(r, "space"@);
                let spaced = with_primitive(r, "space"@);
                lemma_add_node_rule(spaced, name, crate::grammar::array_production(item, min));
            }
        }
    }
}

/// A compiled grammar defines every rule name once, and defines `root`
/// exactly once: either the compiled root node's own rule is named `root`,
/// or no rule is and a `root` alias line names the root node's rule.
pub proof fn lemma_grammar_defines_root_once(schema: JsonValue)
    ensures
        compile_node(seq![], schema, "root"@).1 matches Ok(root) ==> {
            let rules = compile_node(seq![], schema, "root"@).0;
            &&& names_unique(rules)
            &&& has_rule(rules, root)
            &&& (root != "root"@ ==> !has_rule(rules, "root"@))
        },
{
    lemma_node_sound(seq![], schema, "root"@);
    lemma_root_alias_only_for_builtins(schema);
}

/// The rule a successfully compiled node is matched by: the rule named
/// after the node, or a built-in rule added on its own.
pub open spec fn named_or_builtin(rules: Rules, outcome: NodeOutcome, name: Seq<char>) -> bool {
    outcome.1 matches Ok(n) ==> {
        ||| n == name
        ||| crate::grammar::is_primitive_name(n) && outcome.0 == with_primitive(rules, n)
    }
}

/// The rule a node is matched by is the one that node asked for: an existing
/// rule of the node's name is reused only when it is the same rule, a rule
/// of that name with another production is refused, and after success the
/// only rule of that name is `name ::= production`.
pub proof fn lemma_node_rule_is_its_own(rules: Rules, name: Seq<char>, production: Seq<char>)
    requires
        names_unique(rules),
    ensures
        add_node_rule(rules, name, production).1 is Err
            <==> (has_rule(rules, name) && !crate::grammar::defines(rules, name, production)),
        add_node_rule(rules, name, production).1 is Ok ==> forall|i: int|
            0 <= i < add_node_rule(rules, name, production).0.len()
                && (#[trigger] add_node_rule(rules, name, production).0[i]).0 == name
                ==> add_node_rule(rules, name, production).0[i].1 == production,
{
    let out = add_node_rule(rules, name, production);
    if crate::grammar::defines(rules, name, production) {
        let k = choose|k: int| 0 <= k < rules.len() && rules[k] == (name, production);
        assert forall|i: int| 0 <= i < out.0.len() && (#[trigger] out.0[i]).0 == name
            implies out.0[i].1 == production by {
            if i != k {
                if i < k {
                    assert(rules[i].0 != rules[k].0);
                } else {
                    assert(rules[k].0 != rules[i].0);
                }
            }
        }
    } else if !has_rule(rules, name) {
        assert forall|i: int| 0 <= i < out.0.len() && (#[trigger] out.0[i]).0 == name
            implies out.0[i].1 == production by {
            if i < rules.len() {
                assert(out.0[i] == rules[i]);
            }
        }
    }
}

proof fn lemma_add_node_rule_named(rules: Rules, r: Rules, name: Seq<char>, production: Seq<char>)
    ensures
        named_or_builtin(rules, add_node_rule(r, name, production), name),
{
}

proof fn lemma_typed_name(rules: Rules, entries: Seq<(String, JsonValue)>, t: Seq<char>, name: Seq<char>)
    requires
        names_unique(rules),
    ensures
        named_or_builtin(rules, compile_typed(rules, entries, t, name), name),
{
    if t == "string"@ || t == "integer"@ || t == "number"@ || t == "boolean"@ || t == "null"@ {
    } else if t == "object"@ {
        lemma_member_size(entries, "properties"@);
        if let Some(JsonValue::Object(props)) = member(entries, "properties"@) {
            lemma_with_primitive(rules, "space"@);
            let spaced = with_primitive(rules, "space"@);
            let o = compile_properties(spaced, props@, name, 0);
            lemma_properties_sound(spaced, props@, name, 0);
            if let Ok(pieces) = o.1 {
                lemma_add_node_rule_named(rules, o.0, name,
                    crate::text::join(seq!["\"{\" space"@] + pieces + seq!["\"}\" space"@], " "@));
            }
        }
    } else if t == "array"@ {
        lemma_member_size(entries, "items"@);
        if let Some(items) = member(entries, "items"@) {
            if let Some(min) = crate::grammar::min_items_of(entries) {
                let label = name + seq!['-'] + "item"@;
                lemma_node_sound(rules, items, label);
                let (r, res) = compile_node(rules, items, label);
                if let Ok(item) = res {
                    lemma_with_primitive(r, "space"@);
                    lemma_add_node_rule_named(rules, with_primitive(r, "space"@), name,
                        crate::grammar::array_production(item, min));
                }
            }
        }
    }
}

/// A node that compiles is matched by the rule named after it or by a
/// built-in rule.
proof fn lemma_node_name(rules: Rules, schema: JsonValue, name: Seq<char>)
    requires
        names_unique(rules),
    ensures
        named_or_builtin(rules, compile_node(rules, schema, name), name),
{
    if let JsonValue::Object(entries) = schema {
        let e = entries@;
        if untolerated_from(e, 0) is None {
            lemma_with_primitive(rules, "space"@);
            let spaced = with_primitive(rules, "space"@);
            if let Some(values) = member(e, "enum"@) {
                if let JsonValue::Array(list) = values {
                    if let Ok(terms) = crate::grammar::terminals_for(list@, name, 0) {
                        lemma_add_node_rule_named(rules, spaced, name,
                            "("@ + crate::text::join(terms, " | "@) + ") space"@);
                    }
                }
            } else if let Some(value) = member(e, "const"@) {
                if let Ok(t) = crate::grammar::terminal_for(value, name) {
                    lemma_add_node_rule_named(rules, spaced, name, t + " space"@);
                }
            } else if member(e, "anyOf"@) is Some || member(e, "oneOf"@) is Some {
                let key = if member(e, "anyOf"@) is Some { "anyOf"@ } else { "oneOf"@ };
                lemma_member_size(e, key);
                if let Some(JsonValue::Array(list)) = member(e, key) {
                    let o = compile_variants(rules, list@, name, 0);
                    lemma_variants_sound(rules, list@, name, 0);
                    if let Ok(alternatives) = o.1 {
                        lemma_add_node_rule_named(rules, o.0, name,
                            "("@ + crate::text::join(alternatives, " | "@) + ")"@);
                    }
                }
            } else {
                match member(e, "type"@) {
                    Some(JsonValue::String(t)) => {
                        lemma_typed_name(rules, e, t@, name);
                    },
                    Some(JsonValue::Array(types)) => {
                        let o = compile_type_list(rules, e, types@, name, 0);
                        lemma_type_list_sound(rules, e, types@, name, 0);
                        if let Ok(alternatives) = o.1 {
                            lemma_add_node_rule_named(rules, o.0, name,
                                "("@ + crate::text::join(alternatives, " | "@) + ")"@);
                        }
                    },
                    _ => {},
                }
            }
        }
    }
}

/// When the root node's rule is not named `root`, the node compiled to a
/// built-in rule and nothing else was defined.
proof fn lemma_root_alias_only_for_builtins(schema: JsonValue)
    ensures
        compile_node(seq![], schema, "root"@).1 matches Ok(root)
            ==> (root != "root"@ ==> !has_rule(compile_node(seq![], schema, "root"@).0, "root"@)),
{
    lemma_node_name(seq![], schema, "root"@);
    reveal_strlit("root");
    reveal_strlit("space");
    reveal_strlit("string");
    reveal_strlit("integer");
    reveal_strlit("number");
    reveal_strlit("boolean");
    reveal_strlit("null");
    assert("root"@[0] != "space"@[0]);
    assert("root"@[0] != "string"@[0]);
    assert("root"@[0] != "integer"@[0]);
    assert("root"@[0] != "number"@[0]);
    assert("root"@[0] != "boolean"@[0]);
    assert("root"@[0] != "null"@[0]);
    let (rules, res) = compile_node(seq![], schema, "root"@);
    if let Ok(root) = res {
        if root != "root"@ {
            let spaced = with_rule(seq![], "space"@, crate::grammar::SPACE_PRODUCTION@);
            assert(!has_rule(seq![], "space"@));
            assert(spaced.len() == 1 && spaced[0].0 == "space"@);
            assert(!has_rule(rules, "root"@)) by {
                if has_rule(rules, "root"@) {
                    let i = choose|i: int| 0 <= i < rules.len() && rules[i].0 == "root"@;
                    if root == "space"@ {
                        assert(rules == spaced);
                    } else {
                        assert(rules.len() <= 2);
                        assert(i == 0 || i == 1);
                    }
                }
            }
        }
    }
}

/// The members of an object node (none for other nodes).
pub open spec fn members_of(schema: JsonValue) -> Seq<(String, JsonValue)> {
    match schema {
        JsonValue::Object(entries) => entries@,
        _ => seq![],
    }
}

proof fn lemma_first_untolerated(entries: Seq<(String, JsonValue)>, from: int, i: int)
    requires
        0 <= from <= i < entries.len(),
        !is_tolerated(entries[i].0@),
        forall|j: int| 0 <= j < i ==> is_tolerated(#[trigger] entries[j].0@),
    ensures
        untolerated_from(entries, from) == Some(i),
    decreases i - from,
{
    if from < i {
        lemma_first_untolerated(entries, from + 1, i);
    }
}

/// A schema node holding a keyword outside the supported subset is refused,
/// and the error names the first such keyword.
pub proof fn lemma_unsupported_keyword_named(rules: Rules, schema: JsonValue, name: Seq<char>, i: int)
    requires
        schema is Object,
        0 <= i < members_of(schema).len(),
        !is_tolerated(members_of(schema)[i].0@),
        forall|j: int| 0 <= j < i ==> is_tolerated(#[trigger] members_of(schema)[j].0@),
    ensures
        compile_node(rules, schema, name)
            == (rules, Err::<Seq<char>, Seq<char>>(unsupported_keyword_message(members_of(schema)[i].0@, name))),
        contains(unsupported_keyword_message(members_of(schema)[i].0@, name), debug_quoted(members_of(schema)[i].0@)),
{
    let entries = members_of(schema);
    lemma_first_untolerated(entries, 0, i);
    let key = entries[i].0@;
    let prefix = "unsupported JSON Schema keyword "@;
    let m = unsupported_keyword_message(key, name);
    assert(m.subrange(prefix.len() as int, (prefix.len() + debug_quoted(key).len()) as int) =~= debug_quoted(key));
    assert(occurs_at(m, debug_quoted(key), prefix.len() as int));
}

/// A node refused for its own shape, before any of its sub-schemas is
/// compiled, leaves the rule list exactly as it was: a node that is not an
/// object, an `enum` that is empty, and a node with none of `type`, `enum`,
/// `const`, `anyOf`, `oneOf`. (A node with an unsupported keyword is the
/// law above.)
pub proof fn lemma_refused_node_keeps_rules(rules: Rules, schema: JsonValue, name: Seq<char>)
    ensures
        !(schema is Object) ==> compile_node(rules, schema, name).0 == rules
            && compile_node(rules, schema, name).1 is Err,
        ({
            &&& schema is Object
            &&& untolerated_from(members_of(schema), 0) is None
            &&& member(members_of(schema), "enum"@) matches Some(JsonValue::Array(list))
            &&& list@.len() == 0
        }) ==> compile_node(rules, schema, name).0 == rules && compile_node(rules, schema, name).1 is Err,
        (schema is Object && untolerated_from(members_of(schema), 0) is None
            && member(members_of(schema), "enum"@) is None && member(members_of(schema), "const"@) is None
            && member(members_of(schema), "anyOf"@) is None && member(members_of(schema), "oneOf"@) is None
            && member(members_of(schema), "type"@) is None)
            ==> compile_node(rules, schema, name).0 == rules && compile_node(rules, schema, name).1 is Err,
{
}

/// An object or array type refused for its own keywords, before any of its
/// sub-schemas is compiled, leaves the rule list exactly as it was: an
/// `additionalProperties` other than `false`, a `required` list that is not
/// an array or leaves a property out, and a `minItems` other than 0 or 1.
pub proof fn lemma_refused_type_keeps_rules(rules: Rules, entries: Seq<(String, JsonValue)>, name: Seq<char>)
    ensures
        ({
            &&& member(entries, "properties"@) matches Some(JsonValue::Object(props))
            &&& props@.len() > 0
            &&& member(entries, "additionalProperties"@) matches Some(extra)
            &&& !(extra matches JsonValue::Bool(false))
        }) ==> compile_object(rules, entries, name).0 == rules && compile_object(rules, entries, name).1 is Err,
        ({
            &&& member(entries, "properties"@) matches Some(JsonValue::Object(props))
            &&& props@.len() > 0
            &&& crate::grammar::required_problem(entries, props@, name) is Some
        }) ==> compile_object(rules, entries, name).0 == rules && compile_object(rules, entries, name).1 is Err,
        (member(entries, "items"@) is Some && crate::grammar::min_items_of(entries) is None)
            ==> compile_array(rules, entries, name).0 == rules && compile_array(rules, entries, name).1 is Err,
{
}

/// `entries` with every member named `key` left out.
pub open spec fn without_key(entries: Seq<(String, JsonValue)>, key: Seq<char>) -> Seq<(String, JsonValue)>
    decreases entries.len(),
{
    if entries.len() == 0 {
        seq![]
    } else if entries[0].0@ == key {
        without_key(entries.drop_first(), key)
    } else {
        seq![entries[0]] + without_key(entries.drop_first(), key)
    }
}

proof fn lemma_key_index_shift(entries: Seq<(String, JsonValue)>, key: Seq<char>, from: int)
    requires
        0 <= from,
        entries.len() >= 1,
    ensures
        crate::json::key_index_from(entries, key, from + 1) == match crate::json::key_index_from(entries.drop_first(), key, from) {
            Some(i) => Some(i + 1),
            None => None::<int>,
        },
    decreases entries.len() - from,
{
    if from + 1 < entries.len() {
        assert(entries.drop_first()[from] == entries[from + 1]);
        if entries[from + 1].0@ != key {
            lemma_key_index_shift(entries, key, from + 1);
        }
    }
}

proof fn lemma_member_first(entries: Seq<(String, JsonValue)>, key: Seq<char>)
    ensures
        member(entries, key) == if entries.len() == 0 {
            None
        } else if entries[0].0@ == key {
            Some(entries[0].1)
        } else {
            member(entries.drop_first(), key)
        },
{
    if entries.len() > 0 && entries[0].0@ != key {
        lemma_key_index_shift(entries, key, 0);
        crate::json::lemma_key_index_from(entries.drop_first(), key, 0);
        if let Some(i) = crate::json::key_index(entries.drop_first(), key) {
            assert(entries.drop_first()[i] == entries[i + 1]);
        }
    }
}

proof fn lemma_member_without(entries: Seq<(String, JsonValue)>, dropped: Seq<char>, key: Seq<char>)
    ensures
        member(without_key(entries, dropped), key) == if key == dropped { None } else { member(entries, key) },
    decreases entries.len(),
{
    lemma_member_first(entries, key);
    if entries.len() > 0 {
        let tail = entries.drop_first();
        lemma_member_without(tail, dropped, key);
        if entries[0].0@ != dropped {
            let w = seq![entries[0]] + without_key(tail, dropped);
            lemma_member_first(w, key);
            assert(w.drop_first() =~= without_key(tail, dropped));
        }
    } else {
        lemma_member_first(without_key(entries, dropped), key);
    }
}

proof fn lemma_keyword_names()
    ensures
        "properties"@ != "required"@,
        "properties"@ != "additionalProperties"@,
        "required"@ != "additionalProperties"@,
        "items"@ != "minItems"@,
{
    reveal_strlit("properties");
    reveal_strlit("required");
    reveal_strlit("additionalProperties");
    reveal_strlit("items");
    reveal_strlit("minItems");
    assert("properties"@[0] != "required"@[0]);
    assert("properties"@[0] != "additionalProperties"@[0]);
    assert("required"@[0] != "additionalProperties"@[0]);
    assert("items"@[0] != "minItems"@[0]);
}

/// `additionalProperties: false` and a `required` list naming every
/// property only ever refuse: an object node that passes their checks
/// compiles exactly as the same node without them, to the same result and
/// the same rules.
pub proof fn lemma_object_checks_only_refuse(rules: Rules, entries: Seq<(String, JsonValue)>, name: Seq<char>)
    ensures
        ({
            &&& !(member(entries, "additionalProperties"@) matches Some(extra)
                && !(extra matches JsonValue::Bool(false)))
            &&& (member(entries, "properties"@) matches Some(JsonValue::Object(props))
                ==> crate::grammar::required_problem(entries, props@, name) is None)
        }) ==> compile_object(rules, entries, name)
            == compile_object(rules, without_key(without_key(entries, "required"@), "additionalProperties"@), name),
{
    lemma_keyword_names();
    let inner = without_key(entries, "required"@);
    let stripped = without_key(inner, "additionalProperties"@);
    lemma_member_without(entries, "required"@, "properties"@);
    lemma_member_without(entries, "required"@, "required"@);
    lemma_member_without(entries, "required"@, "additionalProperties"@);
    lemma_member_without(inner, "additionalProperties"@, "properties"@);
    lemma_member_without(inner, "additionalProperties"@, "required"@);
    lemma_member_without(inner, "additionalProperties"@, "additionalProperties"@);
}

/// A `minItems` of 0 is the default: an array node stating it compiles
/// exactly as the same node without it, to the same result and the same
/// rules.
pub proof fn lemma_min_items_zero_is_default(rules: Rules, entries: Seq<(String, JsonValue)>, name: Seq<char>)
    requires
        member(entries, "minItems"@) == Some(JsonValue::Number(crate::json::JsonNumber::PosInt(0))),
    ensures
        compile_array(rules, entries, name) == compile_array(rules, without_key(entries, "minItems"@), name),
{
    lemma_keyword_names();
    lemma_member_without(entries, "minItems"@, "items"@);
    lemma_member_without(entries, "minItems"@, "minItems"@);
}

/// An array node whose items compile is refused for its `minItems`, with
/// the rules left as they were, exactly when it states a `minItems` that is
/// not the integer 0 or 1.
pub proof fn lemma_min_items_refused_exactly(rules: Rules, entries: Seq<(String, JsonValue)>, name: Seq<char>)
    requires
        member(entries, "items"@) is Some,
        compile_node(rules, member(entries, "items"@)->0, name + seq!['-'] + "item"@).1 is Ok,
    ensures
        compile_array(rules, entries, name) == (rules, Err::<Seq<char>, Seq<char>>(crate::grammar::msg_at(
            "\"minItems\" at "@, name, " must be 0 or 1 — larger minimums are not supported"@)))
            <==> ({
                &&& member(entries, "minItems"@) matches Some(v)
                &&& !(crate::grammar::json_as_u64(v) matches Some(n) && n <= 1)
            }),
{
    let refusal = crate::grammar::msg_at("\"minItems\" at "@, name,
        " must be 0 or 1 — larger minimums are not supported"@);
    let clash = crate::grammar::clash_message(name);
    reveal_strlit("\"minItems\" at ");
    reveal_strlit("the rule name ");
    assert(refusal[0] == '"');
    assert(clash[0] == 't');
    assert(refusal != clash);
}

proof fn lemma_annotations_are_not_keywords(k: Seq<char>)
    ensures
        is_annotation_keyword(k) ==> k != "enum"@,
        is_annotation_keyword(k) ==> k != "const"@,
        is_annotation_keyword(k) ==> k != "anyOf"@,
        is_annotation_keyword(k) ==> k != "oneOf"@,
        is_annotation_keyword(k) ==> k != "type"@,
        is_annotation_keyword(k) ==> k != "properties"@,
        is_annotation_keyword(k) ==> k != "additionalProperties"@,
        is_annotation_keyword(k) ==> k != "required"@,
        is_annotation_keyword(k) ==> k != "items"@,
        is_annotation_keyword(k) ==> k != "minItems"@,
        "type"@ != "enum"@,
{
    reveal_strlit("title");
    reveal_strlit("description");
    reveal_strlit("default");
    reveal_strlit("examples");
    reveal_strlit("$schema");
    reveal_strlit("$id");
    reveal_strlit("enum");
    reveal_strlit("const");
    reveal_strlit("anyOf");
    reveal_strlit("oneOf");
    reveal_strlit("type");
    reveal_strlit("properties");
    reveal_strlit("additionalProperties");
    reveal_strlit("required");
    reveal_strlit("items");
    reveal_strlit("minItems");
    assert("title"@.len() != "enum"@.len() || "title"@[0] != "enum"@[0]);
    assert("title"@.len() != "const"@.len() || "title"@[0] != "const"@[0]);
    assert("title"@.len() != "anyOf"@.len() || "title"@[0] != "anyOf"@[0]);
    assert("title"@.len() != "oneOf"@.len() || "title"@[0] != "oneOf"@[0]);
    assert("title"@.len() != "type"@.len() || "title"@[0] != "type"@[0]);
    assert("title"@.len() != "properties"@.len() || "title"@[0] != "properties"@[0]);
    assert("title"@.len() != "additionalProperties"@.len() || "title"@[0] != "additionalProperties"@[0]);
    assert("title"@.len() != "required"@.len() || "title"@[0] != "required"@[0]);
    assert("title"@.len() != "items"@.len() || "title"@[0] != "items"@[0]);
    assert("title"@.len() != "minItems"@.len() || "title"@[0] != "minItems"@[0]);
    assert("description"@.len() != "enum"@.len() || "description"@[0] != "enum"@[0]);
    assert("description"@.len() != "const"@.len() || "description"@[0] != "const"@[0]);
    assert("description"@.len() != "anyOf"@.len() || "description"@[0] != "anyOf"@[0]);
    assert("description"@.len() != "oneOf"@.len() || "description"@[0] != "oneOf"@[0]);
    assert("description"@.len() != "type"@.len() || "description"@[0] != "type"@[0]);
    assert("description"@.len() != "properties"@.len() || "description"@[0] != "properties"@[0]);
    assert("description"@.len() != "additionalProperties"@.len() || "description"@[0] != "additionalProperties"@[0]);
    assert("description"@.len() != "required"@.len() || "description"@[0] != "required"@[0]);
    assert("description"@.len() != "items"@.len() || "description"@[0] != "items"@[0]);
    assert("description"@.len() != "minItems"@.len() || "description"@[0] != "minItems"@[0]);
    assert("default"@.len() != "enum"@.len() || "default"@[0] != "enum"@[0]);
    assert("default"@.len() != "const"@.len() || "default"@[0] != "const"@[0]);
    assert("default"@.len() != "anyOf"@.len() || "default"@[0] != "anyOf"@[0]);
    assert("default"@.len() != "oneOf"@.len() || "default"@[0] != "oneOf"@[0]);
    assert("default"@.len() != "type"@.len() || "default"@[0] != "type"@[0]);
    assert("default"@.len() != "properties"@.len() || "default"@[0] != "properties"@[0]);
    assert("default"@.len() != "additionalProperties"@.len() || "default"@[0] != "additionalProperties"@[0]);
    assert("default"@.len() != "required"@.len() || "default"@[0] != "required"@[0]);
    assert("default"@.len() != "items"@.len() || "default"@[0] != "items"@[0]);
    assert("default"@.len() != "minItems"@.len() || "default"@[0] != "minItems"@[0]);
    assert("examples"@.len() != "enum"@.len() || "examples"@[0] != "enum"@[0]);
    assert("examples"@.len() != "const"@.len() || "examples"@[0] != "const"@[0]);
    assert("examples"@.len() != "anyOf"@.len() || "examples"@[0] != "anyOf"@[0]);
    assert("examples"@.len() != "oneOf"@.len() || "examples"@[0] != "oneOf"@[0]);
    assert("examples"@.len() != "type"@.len() || "examples"@[0] != "type"@[0]);
    assert("examples"@.len() != "properties"@.len() || "examples"@[0] != "properties"@[0]);
    assert("examples"@.len() != "additionalProperties"@.len() || "examples"@[0] != "additionalProperties"@[0]);
    assert("examples"@.len() != "required"@.len() || "examples"@[0] != "required"@[0]);
    assert("examples"@.len() != "items"@.len() || "examples"@[0] != "items"@[0]);
    assert("examples"@.len() != "minItems"@.len() || "examples"@[0] != "minItems"@[0]);
    assert("$schema"@.len() != "enum"@.len() || "$schema"@[0] != "enum"@[0]);
    assert("$schema"@.len() != "const"@.len() || "$schema"@[0] != "const"@[0]);
    assert("$schema"@.len() != "anyOf"@.len() || "$schema"@[0] != "anyOf"@[0]);
    assert("$schema"@.len() != "oneOf"@.len() || "$schema"@[0] != "oneOf"@[0]);
    assert("$schema"@.len() != "type"@.len() || "$schema"@[0] != "type"@[0]);
    assert("$schema"@.len() != "properties"@.len() || "$schema"@[0] != "properties"@[0]);
    assert("$schema"@.len() != "additionalProperties"@.len() || "$schema"@[0] != "additionalProperties"@[0]);
    assert("$schema"@.len() != "required"@.len() || "$schema"@[0] != "required"@[0]);
    assert("$schema"@.len() != "items"@.len() || "$schema"@[0] != "items"@[0]);
    assert("$schema"@.len() != "minItems"@.len() || "$schema"@[0] != "minItems"@[0]);
    assert("$id"@.len() != "enum"@.len() || "$id"@[0] != "enum"@[0]);
    assert("$id"@.len() != "const"@.len() || "$id"@[0] != "const"@[0]);
    assert("$id"@.len() != "anyOf"@.len() || "$id"@[0] != "anyOf"@[0]);
    assert("$id"@.len() != "oneOf"@.len() || "$id"@[0] != "oneOf"@[0]);
    assert("$id"@.len() != "type"@.len() || "$id"@[0] != "type"@[0]);
    assert("$id"@.len() != "properties"@.len() || "$id"@[0] != "properties"@[0]);
    assert("$id"@.len() != "additionalProperties"@.len() || "$id"@[0] != "additionalProperties"@[0]);
    assert("$id"@.len() != "required"@.len() || "$id"@[0] != "required"@[0]);
    assert("$id"@.len() != "items"@.len() || "$id"@[0] != "items"@[0]);
    assert("$id"@.len() != "minItems"@.len() || "$id"@[0] != "minItems"@[0]);
    assert("type"@[0] != "enum"@[0]);
}

/// The annotation keywords: they describe a schema and constrain nothing.
pub open spec fn is_annotation_keyword(k: Seq<char>) -> bool {
    ||| k == "title"@
    ||| k == "description"@
    ||| k == "default"@
    ||| k == "examples"@
    ||| k == "$schema"@
    ||| k == "$id"@
}

proof fn lemma_untolerated_found(e: Seq<(String, JsonValue)>, from: int)
    requires
        0 <= from,
    ensures
        match untolerated_from(e, from) {
            None => forall|k: int| from <= k < e.len() ==> is_tolerated(#[trigger] e[k].0@),
            Some(j) => from <= j < e.len() && !is_tolerated(e[j].0@)
                && forall|k: int| from <= k < j ==> is_tolerated(#[trigger] e[k].0@),
        },
    decreases e.len() - from,
{
    if from < e.len() && is_tolerated(e[from].0@) {
        lemma_untolerated_found(e, from + 1);
    }
}

/// A member with an accepted keyword put anywhere among a node's members
/// leaves the keyword an unsupported-keyword error names as it was.
proof fn lemma_untolerated_insert(e: Seq<(String, JsonValue)>, i: int, entry: (String, JsonValue))
    requires
        0 <= i <= e.len(),
        is_tolerated(entry.0@),
    ensures
        untolerated_from(e.insert(i, entry), 0) is None <==> untolerated_from(e, 0) is None,
        untolerated_from(e, 0) matches Some(j) ==> (untolerated_from(e.insert(i, entry), 0) matches Some(j2)
            && e.insert(i, entry)[j2].0@ == e[j].0@),
{
    let f = e.insert(i, entry);
    e.insert_ensures(i, entry);
    lemma_untolerated_found(e, 0);
    lemma_untolerated_found(f, 0);
    match untolerated_from(e, 0) {
        None => {
            if let Some(j2) = untolerated_from(f, 0) {
                if j2 < i {
                    assert(f[j2] == e[j2]);
                } else if j2 > i {
                    assert(f[j2] == e[j2 - 1]);
                }
            }
        },
        Some(j) => {
            let j2 = if j < i { j } else { j + 1 };
            assert(f[j2] == e[j]);
            assert forall|k: int| 0 <= k < j2 implies is_tolerated(#[trigger] f[k].0@) by {
                if k < i {
                    assert(f[k] == e[k]);
                } else if k > i {
                    assert(f[k] == e[k - 1]);
                }
            }
            lemma_first_untolerated(f, 0, j2);
        },
    }
}

proof fn lemma_key_index_found(e: Seq<(String, JsonValue)>, key: Seq<char>, from: int)
    requires
        0 <= from,
    ensures
        match crate::json::key_index_from(e, key, from) {
            None => forall|k: int| from <= k < e.len() ==> (#[trigger] e[k]).0@ != key,
            Some(j) => from <= j < e.len() && e[j].0@ == key
                && forall|k: int| from <= k < j ==> (#[trigger] e[k]).0@ != key,
        },
    decreases e.len() - from,
{
    if from < e.len() && e[from].0@ != key {
        lemma_key_index_found(e, key, from + 1);
    }
}

proof fn lemma_first_key(e: Seq<(String, JsonValue)>, key: Seq<char>, from: int, j: int)
    requires
        0 <= from <= j < e.len(),
        e[j].0@ == key,
        forall|k: int| 0 <= k < j ==> (#[trigger] e[k]).0@ != key,
    ensures
        crate::json::key_index_from(e, key, from) == Some(j),
    decreases j - from,
{
    if from < j {
        lemma_first_key(e, key, from + 1, j);
    }
}

/// A member put anywhere among a node's members changes no lookup of
/// another key.
proof fn lemma_member_insert(e: Seq<(String, JsonValue)>, i: int, entry: (String, JsonValue), key: Seq<char>)
    requires
        0 <= i <= e.len(),
        entry.0@ != key,
    ensures
        member(e.insert(i, entry), key) == member(e, key),
{
    let f = e.insert(i, entry);
    e.insert_ensures(i, entry);
    lemma_key_index_found(e, key, 0);
    lemma_key_index_found(f, key, 0);
    match crate::json::key_index(e, key) {
        None => {
            if let Some(j2) = crate::json::key_index(f, key) {
                if j2 < i {
                    assert(f[j2] == e[j2]);
                } else if j2 > i {
                    assert(f[j2] == e[j2 - 1]);
                }
            }
        },
        Some(j) => {
            let j2 = if j < i { j } else { j + 1 };
            assert(f[j2] == e[j]);
            assert forall|k: int| 0 <= k < j2 implies (#[trigger] f[k]).0@ != key by {
                if k < i {
                    assert(f[k] == e[k]);
                } else if k > i {
                    assert(f[k] == e[k - 1]);
                }
            }
            lemma_first_key(f, key, 0, j2);
        },
    }
}

/// Two member lists agree on every keyword the compiler looks up.
pub open spec fn same_keywords(e1: Seq<(String, JsonValue)>, e2: Seq<(String, JsonValue)>) -> bool {
    &&& member(e1, "enum"@) == member(e2, "enum"@)
    &&& member(e1, "const"@) == member(e2, "const"@)
    &&& member(e1, "anyOf"@) == member(e2, "anyOf"@)
    &&& member(e1, "oneOf"@) == member(e2, "oneOf"@)
    &&& member(e1, "type"@) == member(e2, "type"@)
    &&& member(e1, "properties"@) == member(e2, "properties"@)
    &&& member(e1, "additionalProperties"@) == member(e2, "additionalProperties"@)
    &&& member(e1, "required"@) == member(e2, "required"@)
    &&& member(e1, "items"@) == member(e2, "items"@)
    &&& member(e1, "minItems"@) == member(e2, "minItems"@)
}

proof fn lemma_typed_same(rules: Rules, e1: Seq<(String, JsonValue)>, e2: Seq<(String, JsonValue)>, t: Seq<char>, name: Seq<char>)
    requires
        same_keywords(e1, e2),
    ensures
        compile_typed(rules, e1, t, name) == compile_typed(rules, e2, t, name),
{
    assert(crate::grammar::min_items_of(e1) == crate::grammar::min_items_of(e2));
    if let Some(JsonValue::Object(props)) = member(e1, "properties"@) {
        assert(crate::grammar::required_problem(e1, props@, name) == crate::grammar::required_problem(e2, props@, name));
    }
    assert(compile_object(rules, e1, name) == compile_object(rules, e2, name));
    assert(compile_array(rules, e1, name) == compile_array(rules, e2, name));
}

proof fn lemma_type_list_same(rules: Rules, e1: Seq<(String, JsonValue)>, e2: Seq<(String, JsonValue)>, types: Seq<JsonValue>, name: Seq<char>, from: int)
    requires
        same_keywords(e1, e2),
    ensures
        compile_type_list(rules, e1, types, name, from) == compile_type_list(rules, e2, types, name, from),
    decreases types.len() - from,
{
    if 0 <= from < types.len() {
        if let JsonValue::String(t) = types[from] {
            lemma_typed_same(rules, e1, e2, t@, name + seq!['-'] + t@);
            let (r, res) = compile_typed(rules, e1, t@, name + seq!['-'] + t@);
            if res is Ok {
                lemma_type_list_same(r, e1, e2, types, name, from + 1);
            }
        }
    }
}

proof fn lemma_entries_same(rules: Rules, e1: Seq<(String, JsonValue)>, e2: Seq<(String, JsonValue)>, name: Seq<char>)
    requires
        same_keywords(e1, e2),
    ensures
        compile_entries(rules, e1, name) == compile_entries(rules, e2, name),
{
    assert(compile_combinator(rules, e1, "anyOf"@, name) == compile_combinator(rules, e2, "anyOf"@, name));
    assert(compile_combinator(rules, e1, "oneOf"@, name) == compile_combinator(rules, e2, "oneOf"@, name));
    match member(e1, "type"@) {
        Some(JsonValue::String(t)) => {
            lemma_typed_same(rules, e1, e2, t@, name);
        },
        Some(JsonValue::Array(types)) => {
            lemma_type_list_same(rules, e1, e2, types@, name, 0);
        },
        _ => {},
    }
    assert(compile_by_type(rules, e1, name) == compile_by_type(rules, e2, name));
}

/// The annotation keywords (`title`, `description`, `default`, `examples`,
/// `$schema`, `$id`) are accepted on every node and change nothing: a node
/// with one more of them, put anywhere among its members, compiles to
/// exactly the same rules and result as the node without it.
pub proof fn lemma_annotations_change_nothing(rules: Rules, with: Vec<(String, JsonValue)>, without: Vec<(String, JsonValue)>, i: int, entry: (String, JsonValue), name: Seq<char>)
    requires
        0 <= i <= without@.len(),
        with@ == without@.insert(i, entry),
        is_annotation_keyword(entry.0@),
    ensures
        compile_node(rules, JsonValue::Object(with), name) == compile_node(rules, JsonValue::Object(without), name),
{
    let k = entry.0@;
    lemma_annotations_are_not_keywords(k);
    assert(is_tolerated(k));
    lemma_untolerated_insert(without@, i, entry);
    if untolerated_from(without@, 0) is None {
        lemma_member_insert(without@, i, entry, "enum"@);
        lemma_member_insert(without@, i, entry, "const"@);
        lemma_member_insert(without@, i, entry, "anyOf"@);
        lemma_member_insert(without@, i, entry, "oneOf"@);
        lemma_member_insert(without@, i, entry, "type"@);
        lemma_member_insert(without@, i, entry, "properties"@);
        lemma_member_insert(without@, i, entry, "additionalProperties"@);
        lemma_member_insert(without@, i, entry, "required"@);
        lemma_member_insert(without@, i, entry, "items"@);
        lemma_member_insert(without@, i, entry, "minItems"@);
        lemma_entries_same(rules, with@, without@, name);
    }
}

/// `enum` takes precedence: a node with an `enum` compiles the same with a
/// `type` member added anywhere among its members as without it, to the
/// same rules and result.
pub proof fn lemma_enum_overrides_type(rules: Rules, with: Vec<(String, JsonValue)>, without: Vec<(String, JsonValue)>, i: int, entry: (String, JsonValue), name: Seq<char>)
    requires
        0 <= i <= without@.len(),
        with@ == without@.insert(i, entry),
        entry.0@ == "type"@,
        member(without@, "enum"@) is Some,
    ensures
        compile_node(rules, JsonValue::Object(with), name) == compile_node(rules, JsonValue::Object(without), name),
{
    lemma_annotations_are_not_keywords(entry.0@);
    assert(is_tolerated(entry.0@));
    lemma_untolerated_insert(without@, i, entry);
    lemma_member_insert(without@, i, entry, "enum"@);
}

/// The production that matches exactly the JSON texts of `values`.
pub open spec fn literal_alternation(values: Seq<JsonValue>) -> Seq<char> {
    "("@ + crate::text::join(values.map_values(|v: JsonValue| gbnf_literal(crate::json::json_text(v))), " | "@) + ") space"@
}

proof fn lemma_terminals_of_scalars(values: Seq<JsonValue>, name: Seq<char>, from: int)
    requires
        0 <= from <= values.len(),
        forall|k: int| 0 <= k < values.len() ==> !(#[trigger] values[k] is Array) && !(values[k] is Object),
    ensures
        crate::grammar::terminals_for(values, name, from)
            == Ok::<Seq<Seq<char>>, Seq<char>>(values.subrange(from, values.len() as int).map_values(
                |v: JsonValue| gbnf_literal(crate::json::json_text(v)))),
    decreases values.len() - from,
{
    let f = |v: JsonValue| gbnf_literal(crate::json::json_text(v));
    if from < values.len() {
        lemma_terminals_of_scalars(values, name, from + 1);
        assert(!(values[from] is Array) && !(values[from] is Object));
        assert(values.subrange(from, values.len() as int).map_values(f)
            =~= seq![f(values[from])] + values.subrange(from + 1, values.len() as int).map_values(f));
    } else {
        assert(values.subrange(from, values.len() as int).map_values(f) =~= Seq::<Seq<char>>::empty());
    }
}

/// A node with a non-empty `enum` of scalars is matched by one rule that
/// alternates exactly the JSON texts of the listed values, whatever else
/// the node states.
pub proof fn lemma_enum_lists_its_values(rules: Rules, entries: Vec<(String, JsonValue)>, list: Vec<JsonValue>, name: Seq<char>)
    requires
        untolerated_from(entries@, 0) is None,
        member(entries@, "enum"@) == Some(JsonValue::Array(list)),
        list@.len() > 0,
        forall|k: int| 0 <= k < list@.len() ==> !(#[trigger] list@[k] is Array) && !(list@[k] is Object),
    ensures
        compile_node(rules, JsonValue::Object(entries), name)
            == add_node_rule(with_primitive(rules, "space"@), name, literal_alternation(list@)),
{
    lemma_terminals_of_scalars(list@, name, 0);
    assert(list@.subrange(0, list@.len() as int) =~= list@);
}

/// Value of a hexadecimal digit (upper or lower case).
pub open spec fn hex_value(c: char) -> nat {
    let u = c as u32;
    if '0' <= c && c <= '9' {
        (u - 48) as nat
    } else if 'A' <= c && c <= 'F' {
        (u - 55) as nat
    } else if 'a' <= c && c <= 'f' {
        (u - 87) as nat
    } else {
        0
    }
}

/// The text a GBNF string terminal's body stands for: `\\`, `\"`, `\n`,
/// `\r`, `\t` and `\xHH` escapes decoded, every other character itself.
pub open spec fn gbnf_unescape(s: Seq<char>) -> Seq<char>
    decreases s.len(),
{
    if s.len() == 0 {
        seq![]
    } else if s[0] == '\\' && s.len() >= 2 {
        let e = s[1];
        if e == 'x' && s.len() >= 4 {
            seq![((hex_value(s[2]) * 16 + hex_value(s[3])) as u32) as char] + gbnf_unescape(s.skip(4))
        } else if e == 'n' {
            seq!['\n'] + gbnf_unescape(s.skip(2))
        } else if e == 'r' {
            seq!['\r'] + gbnf_unescape(s.skip(2))
        } else if e == 't' {
            seq!['\t'] + gbnf_unescape(s.skip(2))
        } else {
            seq![e] + gbnf_unescape(s.skip(2))
        }
    } else {
        seq![s[0]] + gbnf_unescape(s.drop_first())
    }
}

/// The text a GBNF string terminal `"..."` matches.
pub open spec fn terminal_text(terminal: Seq<char>) -> Seq<char> {
    gbnf_unescape(terminal.subrange(1, terminal.len() - 1))
}

proof fn lemma_hex_round_trip(d: nat)
    requires
        d < 16,
    ensures
        hex_value(hex_upper(d)) == d,
{
}

proof fn lemma_unescape_char(c: char, rest: Seq<char>)
    ensures
        gbnf_unescape(gbnf_escape_char(c) + rest) == seq![c] + gbnf_unescape(rest),
{
    let e = gbnf_escape_char(c);
    let s = e + rest;
    let u = c as u32;
    if c == '\\' || c == '"' || c == '\n' || c == '\r' || c == '\t' {
        assert(s.skip(2) =~= rest);
    } else if u < 0x20 {
        lemma_hex_round_trip((u / 16) as nat);
        lemma_hex_round_trip((u % 16) as nat);
        assert(s.skip(4) =~= rest);
        assert(((hex_value(s[2]) * 16 + hex_value(s[3])) as u32) == u);
        assert(((u as u32) as char) == c);
    } else {
        assert(s.drop_first() =~= rest);
    }
}

proof fn lemma_unescape_all(text: Seq<char>)
    ensures
        gbnf_unescape(text.flat_map(|c: char| gbnf_escape_char(c))) == text,
    decreases text.len(),
{
    let f = |c: char| gbnf_escape_char(c);
    if text.len() > 0 {
        lemma_unescape_all(text.drop_first());
        assert(text.map_values(f).drop_first() =~= text.drop_first().map_values(f));
        assert(text.flat_map(f) == f(text[0]) + text.drop_first().flat_map(f));
        lemma_unescape_char(text[0], text.drop_first().flat_map(f));
        assert(seq![text[0]] + text.drop_first() =~= text);
    } else {
        assert(text.map_values(f) =~= Seq::<Seq<char>>::empty());
    }
}

/// A GBNF string terminal built for `text` matches exactly `text`: decoding
/// the terminal gives the text back, so distinct texts get distinct terminals.
pub proof fn lemma_terminal_matches_text(text: Seq<char>)
    ensures
        terminal_text(gbnf_literal(text)) == text,
{
    let body = text.flat_map(|c: char| gbnf_escape_char(c));
    assert(gbnf_literal(text).subrange(1, gbnf_literal(text).len() - 1) =~= body);
    lemma_unescape_all(text);
}

/// Every character of `s` is at or above U+0020.
pub open spec fn free_of_controls(s: Seq<char>) -> bool {
    forall|i: int| 0 <= i < s.len() ==> (#[trigger] s[i]) as u32 >= 0x20
}

/// Scanned left to right, a `\` taking the character after it along, `s`
/// holds no bare `"` and does not end in a lone `\`.
pub open spec fn quotes_escaped(s: Seq<char>) -> bool
    decreases s.len(),
{
    if s.len() == 0 {
        true
    } else if s[0] == '\\' {
        s.len() >= 2 && quotes_escaped(s.skip(2))
    } else {
        s[0] != '"' && quotes_escaped(s.drop_first())
    }
}

/// `text` holds no `\`, no `"` and no character below U+0020.
pub open spec fn is_plain_text(text: Seq<char>) -> bool {
    forall|i: int| 0 <= i < text.len() ==> {
        &&& #[trigger] text[i] != '\\'
        &&& text[i] != '"'
        &&& text[i] as u32 >= 0x20
    }
}

proof fn lemma_hex_digit_plain(d: nat)
    requires
        d < 16,
    ensures
        hex_upper(d) != '\\',
        hex_upper(d) != '"',
        hex_upper(d) as u32 >= 0x20,
{
}

proof fn lemma_controls_concat(a: Seq<char>, b: Seq<char>)
    requires
        free_of_controls(a),
        free_of_controls(b),
    ensures
        free_of_controls(a + b),
{
    assert forall|i: int| 0 <= i < (a + b).len() implies (#[trigger] (a + b)[i]) as u32 >= 0x20 by {
        if i < a.len() {
            assert((a + b)[i] == a[i]);
        } else {
            assert((a + b)[i] == b[i - a.len()]);
        }
    }
}

proof fn lemma_escape_char_shape(c: char, rest: Seq<char>)
    requires
        quotes_escaped(rest),
    ensures
        free_of_controls(gbnf_escape_char(c)),
        quotes_escaped(gbnf_escape_char(c) + rest),
        (c != '\\' && c != '"' && c as u32 >= 0x20) ==> gbnf_escape_char(c) == seq![c],
{
    let e = gbnf_escape_char(c);
    let s = e + rest;
    let u = c as u32;
    if c == '\\' || c == '"' || c == '\n' || c == '\r' || c == '\t' {
        assert(s.skip(2) =~= rest);
    } else if u < 0x20 {
        let h1 = hex_upper((u / 16) as nat);
        let h2 = hex_upper((u % 16) as nat);
        lemma_hex_digit_plain((u / 16) as nat);
        lemma_hex_digit_plain((u % 16) as nat);
        assert(e == seq!['\\', 'x', h1, h2]);
        assert(s.skip(2) =~= seq![h1, h2] + rest);
        assert(s.skip(2).drop_first() =~= seq![h2] + rest);
        assert(s.skip(2).drop_first().drop_first() =~= rest);
        assert(quotes_escaped(seq![h2] + rest));
        assert(quotes_escaped(seq![h1, h2] + rest));
        assert(free_of_controls(e)) by {
            assert forall|i: int| 0 <= i < e.len() implies (#[trigger] e[i]) as u32 >= 0x20 by {
                if i == 0 {
                    assert(e[0] == '\\');
                } else if i == 1 {
                    assert(e[1] == 'x');
                }
            }
        }
    } else {
        assert(s.drop_first() =~= rest);
        assert(e =~= seq![c]);
    }
}

proof fn lemma_escaped_body(text: Seq<char>)
    ensures
        free_of_controls(text.flat_map(|c: char| gbnf_escape_char(c))),
        quotes_escaped(text.flat_map(|c: char| gbnf_escape_char(c))),
        is_plain_text(text) ==> text.flat_map(|c: char| gbnf_escape_char(c)) == text,
    decreases text.len(),
{
    let f = |c: char| gbnf_escape_char(c);
    if text.len() > 0 {
        let tail = text.drop_first();
        lemma_escaped_body(tail);
        assert(text.map_values(f).drop_first() =~= tail.map_values(f));
        assert(text.flat_map(f) == f(text[0]) + tail.flat_map(f));
        lemma_escape_char_shape(text[0], tail.flat_map(f));
        lemma_controls_concat(f(text[0]), tail.flat_map(f));
        if is_plain_text(text) {
            assert(is_plain_text(tail)) by {
                assert forall|i: int| 0 <= i < tail.len() implies {
                    &&& #[trigger] tail[i] != '\\'
                    &&& tail[i] != '"'
                    &&& tail[i] as u32 >= 0x20
                } by {
                    assert(tail[i] == text[i + 1]);
                }
            }
            assert(text[0] != '\\' && text[0] != '"' && text[0] as u32 >= 0x20);
            assert(seq![text[0]] + tail =~= text);
        }
    } else {
        assert(text.map_values(f) =~= Seq::<Seq<char>>::empty());
    }
}

/// A GBNF string terminal built for any text is well formed: it opens and
/// closes with `"`, holds no character below U+0020, and between the two
/// quotes, scanned left to right, every `"` is escaped and no `\` is left
/// dangling before the closing quote. Text without `\`, `"` or characters
/// below U+0020 is quoted as it is.
pub proof fn lemma_terminal_well_formed(text: Seq<char>)
    ensures
        gbnf_literal(text).len() >= 2,
        gbnf_literal(text)[0] == '"',
        gbnf_literal(text).last() == '"',
        free_of_controls(gbnf_literal(text)),
        quotes_escaped(gbnf_literal(text).subrange(1, gbnf_literal(text).len() - 1)),
        is_plain_text(text) ==> gbnf_literal(text) == seq!['"'] + text + seq!['"'],
{
    let body = text.flat_map(|c: char| gbnf_escape_char(c));
    lemma_escaped_body(text);
    let lit = gbnf_literal(text);
    assert(lit.subrange(1, lit.len() - 1) =~= body);
    lemma_controls_concat(seq!['"'], body);
    lemma_controls_concat(seq!['"'] + body, seq!['"']);
}

/// `s` begins with `p`.
pub open spec fn starts_with(s: Seq<char>, p: Seq<char>) -> bool {
    p.len() <= s.len() && s.subrange(0, p.len() as int) == p
}

/// Where the member piece of property `k` stands among the pieces made for
/// properties `from..`.
pub open spec fn member_offset(from: int, k: int) -> int {
    if from == 0 { 2 * k } else { 2 * (k - from) + 1 }
}

/// The pieces an object production is made of list the properties in
/// declaration order: the member for property `k` is the `k`-th member
/// (after its `","` separator when `k > 0`) and opens with the terminal for
/// the JSON-encoded key of property `k`.
pub proof fn lemma_members_in_declaration_order(rules: Rules, props: Seq<(String, JsonValue)>, name: Seq<char>, from: int)
    requires
        0 <= from <= props.len(),
    ensures
        compile_properties(rules, props, name, from).1 matches Ok(pieces) ==> {
            &&& pieces.len() == (if from == 0 && props.len() > 0 { 2 * props.len() - 1 } else { 2 * (props.len() - from) })
            &&& forall|k: int| from <= k < props.len() ==>
                starts_with(#[trigger] pieces[member_offset(from, k)],
                    gbnf_literal(json_quote(props[k].0@)) + " space \":\" space "@)
            &&& forall|k: int| from <= k < props.len() && k > 0 ==>
                #[trigger] pieces[member_offset(from, k) - 1] == "\",\" space"@
        },
    decreases props.len() - from,
{
    if from < props.len() {
        let label = name + seq!['-'] + crate::grammar::sanitized(props[from].0@);
        let (r1, res) = compile_node(rules, props[from].1, label);
        if let Ok(rule) = res {
            lemma_members_in_declaration_order(r1, props, name, from + 1);
            let piece = property_piece(props[from].0@, rule);
            let block = if from > 0 { seq!["\",\" space"@, piece] } else { seq![piece] };
            if let Ok(rest) = compile_properties(r1, props, name, from + 1).1 {
                let pieces = block + rest;
                let head = gbnf_literal(json_quote(props[from].0@)) + " space \":\" space "@;
                assert(piece.subrange(0, head.len() as int) =~= head);
                assert forall|k: int| from <= k < props.len() implies
                    starts_with(#[trigger] pieces[member_offset(from, k)],
                        gbnf_literal(json_quote(props[k].0@)) + " space \":\" space "@) by {
                    if k > from {
                        assert(pieces[member_offset(from, k)] == rest[member_offset(from + 1, k)]);
                    }
                }
                assert forall|k: int| from <= k < props.len() && k > 0 implies
                    #[trigger] pieces[member_offset(from, k) - 1] == "\",\" space"@ by {
                    if k > from {
                        assert(pieces[member_offset(from, k) - 1] == rest[member_offset(from + 1, k) - 1]);
                    }
                }
            }
        }
    }
}

} // verus!
