use ext_infer::grammar::json_schema_to_gbnf;
use ext_infer::json::{JsonNumber, JsonValue};

fn s(text: &str) -> JsonValue {
    JsonValue::String(text.to_string())
}

fn num(n: u64) -> JsonValue {
    JsonValue::Number(JsonNumber::PosInt(n))
}

fn arr(items: Vec<JsonValue>) -> JsonValue {
    JsonValue::Array(items)
}

fn obj(members: Vec<(&str, JsonValue)>) -> JsonValue {
    JsonValue::Object(members.into_iter().map(|(k, v)| (k.to_string(), v)).collect())
}

fn gbnf(schema: JsonValue) -> String {
    json_schema_to_gbnf(&schema).expect("schema should compile")
}

fn gbnf_err(schema: JsonValue) -> String {
    json_schema_to_gbnf(&schema)
        .expect_err("schema should be rejected")
        .to_string()
}

#[test]
fn object_with_scalar_properties() {
    let g = gbnf(obj(vec![
        ("type", s("object")),
        (
            "properties",
            obj(vec![("name", obj(vec![("type", s("string"))])), ("age", obj(vec![("type", s("integer"))]))]),
        ),
        ("required", arr(vec![s("name"), s("age")])),
    ]));
    assert!(g.contains(
        r#"root ::= "{" space "\"name\"" space ":" space string "," space "\"age\"" space ":" space integer "}" space"#
    ));
    assert!(g.contains("string ::="));
    assert!(g.contains("integer ::="));
    assert!(g.contains(r#"space ::= " "?"#));
}

#[test]
fn nested_objects_and_arrays() {
    let g = gbnf(obj(vec![
        ("type", s("object")),
        (
            "properties",
            obj(vec![
                (
                    "tags",
                    obj(vec![("type", s("array")), ("items", obj(vec![("type", s("string"))])), ("minItems", num(1))]),
                ),
                (
                    "author",
                    obj(vec![
                        ("type", s("object")),
                        ("properties", obj(vec![("email", obj(vec![("type", s("string"))]))])),
                    ]),
                ),
            ]),
        ),
    ]));
    assert!(g.contains(r#"root-tags ::= "[" space string ("," space string)* "]" space"#));
    assert!(
        g.contains(r#"root-author ::= "{" space "\"email\"" space ":" space string "}" space"#)
    );
}

#[test]
fn enum_of_strings() {
    let g = gbnf(obj(vec![("enum", arr(vec![s("draft"), s("published")]))]));
    assert!(g.contains(r#"root ::= ("\"draft\"" | "\"published\"") space"#));
}

#[test]
fn const_and_mixed_enum() {
    let g = gbnf(obj(vec![("enum", arr(vec![s("yes"), num(42), JsonValue::Bool(true), JsonValue::Null]))]));
    assert!(g.contains(r#"("\"yes\"" | "42" | "true" | "null") space"#));

    let g = gbnf(obj(vec![("const", s("fixed"))]));
    assert!(g.contains(r#"root ::= "\"fixed\"" space"#));
}

#[test]
fn nullable_via_anyof_and_type_array() {
    let g = gbnf(obj(vec![("anyOf", arr(vec![obj(vec![("type", s("string"))]), obj(vec![("type", s("null"))])]))]));
    assert!(g.contains("root ::= (string | null)"));

    let g = gbnf(obj(vec![("type", arr(vec![s("integer"), s("null")]))]));
    assert!(g.contains("root ::= (integer | null)"));
}

#[test]
fn bare_scalar_root_gets_alias() {
    let g = gbnf(obj(vec![("type", s("string"))]));
    assert!(g.starts_with("root ::= string\n"));
}

#[test]
fn unsupported_keyword_is_named_in_the_error() {
    let err = gbnf_err(obj(vec![("type", s("string")), ("pattern", s("^a+$"))]));
    assert!(err.contains("pattern"), "got: {err}");
}

#[test]
fn optional_properties_are_rejected() {
    let err = gbnf_err(obj(vec![
        ("type", s("object")),
        ("properties", obj(vec![("a", obj(vec![("type", s("string"))])), ("b", obj(vec![("type", s("string"))]))])),
        ("required", arr(vec![s("a")])),
    ]));
    assert!(err.contains("optional properties"), "got: {err}");
}

#[test]
fn ref_is_rejected() {
    let err = gbnf_err(obj(vec![("$ref", s("#/$defs/thing"))]));
    assert!(err.contains("$ref"), "got: {err}");
}

#[test]
fn free_form_object_is_rejected() {
    let err = gbnf_err(obj(vec![("type", s("object"))]));
    assert!(err.contains("properties"), "got: {err}");
}

#[test]
fn min_items_above_one_is_rejected() {
    let err = gbnf_err(obj(vec![("type", s("array")), ("items", obj(vec![("type", s("integer"))])), ("minItems", num(3))]));
    assert!(err.contains("minItems"), "got: {err}");
}

#[test]
fn property_keys_are_escaped_in_terminals() {
    let g = gbnf(obj(vec![("type", s("object")), ("properties", obj(vec![("weird \"key\"", obj(vec![("type", s("boolean"))]))]))]));
    assert!(g.contains(r#""\"weird \\\"key\\\"\"" space"#), "got: {g}");
}
