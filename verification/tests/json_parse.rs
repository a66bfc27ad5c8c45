use ext_infer::json::{parse_json, to_json_text, JsonNumber, JsonValue};

#[test]
fn parses_values_in_member_order() {
    let v = parse_json("{\"z\": [true, null, -3, 18446744073709551615, 2.5e3], \"a\": \"\\u00e9\"}").unwrap();
    match &v {
        JsonValue::Object(members) => {
            assert_eq!(members.len(), 2);
            assert_eq!(members[0].0, "z");
            assert_eq!(members[1].0, "a");
            match &members[0].1 {
                JsonValue::Array(items) => {
                    assert!(matches!(items[0], JsonValue::Bool(true)));
                    assert!(matches!(items[1], JsonValue::Null));
                    assert!(matches!(items[2], JsonValue::Number(JsonNumber::NegInt(-3))));
                    assert!(matches!(items[3], JsonValue::Number(JsonNumber::PosInt(u64::MAX))));
                    assert!(matches!(&items[4], JsonValue::Number(JsonNumber::Float(t)) if t == "2500.0"));
                },
                other => panic!("expected an array, got {:?}", other),
            }
        },
        other => panic!("expected an object, got {:?}", other),
    }
    assert_eq!(to_json_text(&v), "{\"z\":[true,null,-3,18446744073709551615,2500.0],\"a\":\"é\"}");
}

#[test]
fn a_repeated_key_is_held_once() {
    let v = parse_json("{\"a\": 1, \"b\": 2, \"a\": 3}").unwrap();
    assert_eq!(to_json_text(&v), "{\"a\":3,\"b\":2}");
}

#[test]
fn reports_the_parser_message() {
    let expected = serde_json::from_str::<serde_json::Value>("[1,").unwrap_err().to_string();
    assert_eq!(parse_json("[1,").unwrap_err(), expected);
}
