use ext_infer::grammar::{gbnf_string_literal, json_schema_to_gbnf, sanitize, Builder};
use ext_infer::json::{to_json_text, JsonNumber, JsonValue};
use ext_infer::text::decimal_string;

fn s(text: &str) -> JsonValue {
    JsonValue::String(text.to_string())
}

fn obj(members: Vec<(&str, JsonValue)>) -> JsonValue {
    JsonValue::Object(members.into_iter().map(|(k, v)| (k.to_string(), v)).collect())
}

fn err(schema: JsonValue) -> String {
    json_schema_to_gbnf(&schema).unwrap_err().to_string()
}

#[test]
fn whole_grammar_for_a_small_object() {
    let g = json_schema_to_gbnf(&obj(vec![
        ("type", s("object")),
        ("properties", obj(vec![("ok", obj(vec![("type", s("boolean"))])), ("n", obj(vec![("type", s("number"))]))])),
        ("additionalProperties", JsonValue::Bool(false)),
        ("title", s("ignored")),
    ]))
    .unwrap();
    assert_eq!(
        g,
        [
            "space ::= \" \"?\n",
            "boolean ::= (\"true\" | \"false\") space\n",
            "number ::= \"-\"? (\"0\" | [1-9] [0-9]*) (\".\" [0-9]+)? ([eE] [-+]? [0-9]+)? space\n",
            "root ::= \"{\" space \"\\\"ok\\\"\" space \":\" space boolean \",\" space \"\\\"n\\\"\" space \":\" space number \"}\" space\n",
        ]
        .concat()
    );
}

#[test]
fn rules_are_defined_once() {
    let g = json_schema_to_gbnf(&obj(vec![(
        "anyOf",
        JsonValue::Array(vec![obj(vec![("type", s("string"))]), obj(vec![("type", s("string"))]), obj(vec![("type", s("null"))])]),
    )]))
    .unwrap();
    assert_eq!(g.matches("string ::=").count(), 1);
    assert_eq!(g.matches("space ::=").count(), 1);
    assert!(g.contains("root ::= (string | string | null)\n"));
}

#[test]
fn array_with_min_items_zero_and_nested_names() {
    let g = json_schema_to_gbnf(&obj(vec![
        ("type", s("array")),
        ("items", obj(vec![("type", s("object")), ("properties", obj(vec![("a b", obj(vec![("const", JsonValue::Number(JsonNumber::NegInt(-7)))]))]))])),
    ]))
    .unwrap();
    assert!(g.contains("root-item-a-b ::= \"-7\" space\n"));
    assert!(g.contains("root-item ::= \"{\" space \"\\\"a b\\\"\" space \":\" space root-item-a-b \"}\" space\n"));
    assert!(g.contains("root ::= \"[\" space (root-item (\",\" space root-item)*)? \"]\" space\n"));
}

#[test]
fn type_array_names_each_alternative() {
    let g = json_schema_to_gbnf(&obj(vec![(
        "type",
        JsonValue::Array(vec![s("object"), s("null")]),
    ), ("properties", obj(vec![("x", obj(vec![("type", s("integer"))]))]))]))
    .unwrap();
    assert!(g.contains("root-object ::= \"{\" space \"\\\"x\\\"\" space \":\" space integer \"}\" space\n"));
    assert!(g.contains("root ::= (root-object | null)\n"));
}

#[test]
fn literals_of_every_scalar_kind() {
    let g = json_schema_to_gbnf(&obj(vec![(
        "enum",
        JsonValue::Array(vec![
            JsonValue::Number(JsonNumber::Float("1.5".to_string())),
            JsonValue::Number(JsonNumber::PosInt(18446744073709551615)),
            JsonValue::Number(JsonNumber::NegInt(-9223372036854775808)),
            JsonValue::Bool(false),
            s("tab\there\u{1}"),
        ]),
    )]))
    .unwrap();
    assert!(g.contains(
        "root ::= (\"1.5\" | \"18446744073709551615\" | \"-9223372036854775808\" | \"false\" | \"\\\"tab\\\\there\\\\u0001\\\"\") space\n"
    ));
}

#[test]
fn each_schema_error() {
    assert_eq!(err(s("x")), "invalid option schema: schema node at \"root\" must be an object, got \"x\"");
    assert_eq!(
        err(obj(vec![("minLength", JsonValue::Number(JsonNumber::PosInt(2)))])),
        "invalid option schema: unsupported JSON Schema keyword \"minLength\" at \"root\" — supported: type/properties/required/items/minItems/enum/const/anyOf/oneOf"
    );
    assert_eq!(err(obj(vec![("enum", s("a"))])), "invalid option schema: \"enum\" at \"root\" must be an array");
    assert_eq!(err(obj(vec![("enum", JsonValue::Array(vec![]))])), "invalid option schema: \"enum\" at \"root\" is empty");
    assert_eq!(
        err(obj(vec![("const", JsonValue::Array(vec![]))])),
        "invalid option schema: enum/const at \"root\" supports only strings, numbers, booleans, and null"
    );
    assert_eq!(err(obj(vec![("oneOf", JsonValue::Null)])), "invalid option schema: \"oneOf\" at \"root\" must be an array");
    assert_eq!(err(obj(vec![("anyOf", JsonValue::Array(vec![]))])), "invalid option schema: \"anyOf\" at \"root\" is empty");
    assert_eq!(err(obj(vec![("type", JsonValue::Array(vec![]))])), "invalid option schema: \"type\" array at \"root\" is empty");
    assert_eq!(
        err(obj(vec![("type", JsonValue::Array(vec![JsonValue::Null]))])),
        "invalid option schema: \"type\" array at \"root\" must hold strings"
    );
    assert_eq!(
        err(obj(vec![("type", obj(vec![("a", JsonValue::Array(vec![JsonValue::Bool(true), JsonValue::Null]))]))])),
        "invalid option schema: \"type\" at \"root\" must be a string or array of strings, got {\"a\":[true,null]}"
    );
    assert_eq!(
        err(obj(vec![("title", s("t"))])),
        "invalid option schema: schema node at \"root\" needs one of: type, enum, const, anyOf, oneOf"
    );
    assert_eq!(err(obj(vec![("type", s("date"))])), "invalid option schema: unsupported \"type\" \"date\" at \"root\"");
    assert_eq!(
        err(obj(vec![("type", s("object")), ("properties", obj(vec![]))])),
        "invalid option schema: object at \"root\" has no properties"
    );
    assert_eq!(
        err(obj(vec![("type", s("object")), ("properties", obj(vec![("a", obj(vec![("type", s("null"))]))])), ("additionalProperties", JsonValue::Bool(true))])),
        "invalid option schema: \"additionalProperties\" at \"root\" must be false when present — the grammar emits exactly the declared properties"
    );
    assert_eq!(
        err(obj(vec![("type", s("object")), ("properties", obj(vec![("a", obj(vec![("type", s("null"))]))])), ("required", s("a"))])),
        "invalid option schema: \"required\" at \"root\" must be an array"
    );
    assert_eq!(
        err(obj(vec![("type", s("object")), ("properties", obj(vec![("a", obj(vec![("type", s("null"))])), ("b", obj(vec![("type", s("null"))]))])), ("required", JsonValue::Array(vec![s("a")]))])),
        "invalid option schema: optional properties are not supported: \"b\" at \"root\" is missing from \"required\" — list every property or drop \"required\""
    );
    assert_eq!(
        err(obj(vec![("type", s("array"))])),
        "invalid option schema: array at \"root\" needs \"items\" — untyped arrays are not supported"
    );
    assert_eq!(
        err(obj(vec![("type", s("array")), ("items", obj(vec![("type", s("null"))])), ("minItems", JsonValue::Number(JsonNumber::Float("1.0".to_string())))])),
        "invalid option schema: \"minItems\" at \"root\" must be 0 or 1 — larger minimums are not supported"
    );
    assert_eq!(
        err(obj(vec![("anyOf", JsonValue::Array(vec![obj(vec![("type", s("string"))]), obj(vec![("pattern", s("x"))])]))])),
        "invalid option schema: unsupported JSON Schema keyword \"pattern\" at \"root-1\" — supported: type/properties/required/items/minItems/enum/const/anyOf/oneOf"
    );
}

#[test]
fn terminals_escape_quotes_backslashes_and_controls() {
    assert_eq!(gbnf_string_literal("a\"b\\c\n\r\t\u{1}\u{1f}é"), "\"a\\\"b\\\\c\\n\\r\\t\\x01\\x1Fé\"");
    assert_eq!(gbnf_string_literal(""), "\"\"");
}

#[test]
fn sanitize_keeps_ascii_alphanumerics_only() {
    assert_eq!(sanitize("weird \"key\" 42_é"), "weird--key--42--");
}

#[test]
fn builder_rules_are_added_once() {
    let mut b = Builder::default();
    assert_eq!(b.add_rule("x", "\"a\""), "x");
    assert_eq!(b.add_rule("x", "\"b\""), "x");
    assert_eq!(b.primitive("integer"), "integer");
    assert_eq!(b.primitive("space"), "space");
    let names: Vec<(String, String)> = b.rules().clone();
    assert_eq!(
        names,
        vec![
            ("x".to_string(), "\"a\"".to_string()),
            ("space".to_string(), "\" \"?".to_string()),
            ("integer".to_string(), "\"-\"? (\"0\" | [1-9] [0-9]*) space".to_string()),
        ]
    );
}

#[test]
fn json_text_is_compact() {
    let v = obj(vec![("a", JsonValue::Array(vec![JsonValue::Null, s("q\"")])), ("b", obj(vec![]))]);
    assert_eq!(to_json_text(&v), "{\"a\":[null,\"q\\\"\"],\"b\":{}}");
    assert_eq!(decimal_string(0), "0");
    assert_eq!(decimal_string(1234567890), "1234567890");
}

#[test]
fn root_is_defined_exactly_once() {
    for schema in [
        obj(vec![("type", s("string"))]),
        obj(vec![("const", s("x"))]),
        obj(vec![("type", s("array")), ("items", obj(vec![("type", s("boolean"))]))]),
    ] {
        let g = json_schema_to_gbnf(&schema).unwrap();
        let defs = g.lines().filter(|l| l.starts_with("root ::= ")).count();
        assert_eq!(defs, 1, "got: {g}");
        let mut names: Vec<&str> = g.lines().map(|l| l.split(" ::= ").next().unwrap()).collect();
        let n = names.len();
        names.sort();
        names.dedup();
        assert_eq!(names.len(), n, "got: {g}");
    }
}

#[test]
fn keys_that_share_a_rule_name_are_refused() {
    let e = err(obj(vec![
        ("type", s("object")),
        ("properties", obj(vec![
            ("a b", obj(vec![("enum", JsonValue::Array(vec![s("x")]))])),
            ("a-b", obj(vec![("enum", JsonValue::Array(vec![s("y")]))])),
        ])),
    ]));
    assert!(e.contains("the rule name \"root-a-b\" is already taken by another sub-schema"), "{e}");
}

#[test]
fn keys_sharing_a_name_with_a_builtin_value_are_fine() {
    let g = json_schema_to_gbnf(&obj(vec![
        ("type", s("object")),
        ("properties", obj(vec![
            ("a b", obj(vec![("type", s("string"))])),
            ("a-b", obj(vec![("enum", JsonValue::Array(vec![s("y")]))])),
        ])),
    ]))
    .unwrap();
    assert!(g.contains("root-a-b ::= (\"\\\"y\\\"\") space\n"), "{g}");
    assert!(g.contains("\"\\\"a b\\\"\" space \":\" space string"), "{g}");
    assert!(g.contains("\"\\\"a-b\\\"\" space \":\" space root-a-b"), "{g}");
}

#[test]
fn a_type_listed_twice_reuses_its_identical_rule() {
    let g = json_schema_to_gbnf(&obj(vec![
        ("type", JsonValue::Array(vec![s("object"), s("object")])),
        ("properties", obj(vec![("a", obj(vec![("enum", JsonValue::Array(vec![s("x")]))]))])),
    ]))
    .unwrap();
    assert!(g.contains("root ::= (root-object | root-object)\n"), "{g}");
    assert_eq!(g.matches("root-object ::=").count(), 1);
    assert_eq!(g.matches("root-object-a ::=").count(), 1);
    let g = json_schema_to_gbnf(&obj(vec![("type", JsonValue::Array(vec![s("string"), s("string")]))])).unwrap();
    assert!(g.contains("root ::= (string | string)\n"), "{g}");
}

#[test]
fn object_checks_that_pass_change_nothing() {
    let props = || obj(vec![("a", obj(vec![("type", s("null"))])), ("b", obj(vec![("type", s("integer"))]))]);
    let with_checks = obj(vec![
        ("type", s("object")),
        ("properties", props()),
        ("required", JsonValue::Array(vec![s("b"), s("a")])),
        ("additionalProperties", JsonValue::Bool(false)),
    ]);
    let without = obj(vec![("type", s("object")), ("properties", props())]);
    assert_eq!(json_schema_to_gbnf(&with_checks).unwrap(), json_schema_to_gbnf(&without).unwrap());
}

#[test]
fn min_items_zero_is_the_default() {
    let item = || obj(vec![("type", s("string"))]);
    let stated = obj(vec![("type", s("array")), ("items", item()), ("minItems", JsonValue::Number(JsonNumber::PosInt(0)))]);
    let plain = obj(vec![("type", s("array")), ("items", item())]);
    assert_eq!(json_schema_to_gbnf(&stated).unwrap(), json_schema_to_gbnf(&plain).unwrap());
}

#[test]
fn a_refused_node_leaves_the_builder_rules() {
    let mut b = Builder::default();
    b.primitive("string");
    let before = b.rules().clone();
    assert!(b.visit(&JsonValue::Bool(true), "root").is_err());
    assert!(b.visit(&obj(vec![("title", s("t"))]), "root").is_err());
    assert!(b.visit(&obj(vec![("enum", JsonValue::Array(vec![]))]), "root").is_err());
    assert_eq!(b.rules(), &before);
    let ok = b.visit(&obj(vec![("const", JsonValue::Bool(true))]), "root").unwrap();
    assert_eq!(ok, "root");
    assert_eq!(&b.rules()[..before.len()], &before[..]);
    assert_eq!(b.rules().last().unwrap(), &("root".to_string(), "\"true\" space".to_string()));
}

#[test]
fn terminals_are_well_formed() {
    assert_eq!(gbnf_string_literal("plain text"), "\"plain text\"");
    let t = gbnf_string_literal("a\"b\\c\u{1}d\ne");
    assert_eq!(t, "\"a\\\"b\\\\c\\x01d\\ne\"");
    assert!(t.starts_with('"') && t.ends_with('"'));
    assert!(t.chars().all(|c| (c as u32) >= 0x20));
}
