use ext_infer::response::FinishReason;
use ext_infer::error::InferError;
use ext_infer::json::{JsonNumber, JsonValue};
use ext_infer::model::{
    check_context_size, check_embedding_input, check_prompt_length, embed_access, generation_access, get_bool,
    get_grammar, get_string, get_uint, model_settings, pooling_option, Generation, LoadOptions, ModelSettings,
    Pooling, SchemaSource,
};

fn invalid(e: InferError) -> (String, String) {
    match e {
        InferError::InvalidOption { name, reason } => (name, reason),
        other => panic!("expected an invalid option, got {:?}", other),
    }
}

fn inference(e: InferError) -> String {
    match e {
        InferError::Inference(m) => m,
        other => panic!("expected an inference error, got {:?}", other),
    }
}

fn no_options() -> LoadOptions {
    LoadOptions { n_gpu_layers: None, use_mmap: None, use_mlock: None, embedding: None, pooling: None }
}

#[test]
fn pooling_names_and_default() {
    assert_eq!(pooling_option(None).unwrap(), Pooling::Unspecified);
    assert_eq!(pooling_option(Some("unspecified".to_string())).unwrap(), Pooling::Unspecified);
    assert_eq!(pooling_option(Some("none".to_string())).unwrap(), Pooling::NoPooling);
    assert_eq!(pooling_option(Some("mean".to_string())).unwrap(), Pooling::Mean);
    assert_eq!(pooling_option(Some("cls".to_string())).unwrap(), Pooling::Cls);
    assert_eq!(pooling_option(Some("last".to_string())).unwrap(), Pooling::Last);
    assert_eq!(pooling_option(Some("rank".to_string())).unwrap(), Pooling::Rank);
    let (name, reason) = invalid(pooling_option(Some("weighted".to_string())).unwrap_err());
    assert_eq!(name, "pooling");
    assert_eq!(reason, "expected one of unspecified/none/mean/cls/last/rank, got \"weighted\"");
}

#[test]
fn uint_option_checks() {
    assert_eq!(get_uint("n_gpu_layers", None).unwrap(), None);
    assert_eq!(get_uint("n_gpu_layers", Some(Some(33))).unwrap(), Some(33));
    assert_eq!(get_uint("n_gpu_layers", Some(Some(4294967295))).unwrap(), Some(4294967295));
    assert_eq!(invalid(get_uint("n_gpu_layers", Some(None)).unwrap_err()).1, "expected integer");
    assert_eq!(invalid(get_uint("n_gpu_layers", Some(Some(-1))).unwrap_err()).1, "must be non-negative");
    assert_eq!(invalid(get_uint("n_ctx", Some(Some(4294967296))).unwrap_err()), ("n_ctx".to_string(), "exceeds u32 range".to_string()));
}

#[test]
fn bool_and_string_option_checks() {
    assert_eq!(get_bool("use_mmap", None).unwrap(), None);
    assert_eq!(get_bool("use_mmap", Some(Some(false))).unwrap(), Some(false));
    assert_eq!(invalid(get_bool("use_mmap", Some(None)).unwrap_err()), ("use_mmap".to_string(), "expected bool".to_string()));
    assert_eq!(get_string("pooling", Some(Some("mean".to_string()))).unwrap(), Some("mean".to_string()));
    assert_eq!(invalid(get_string("pooling", Some(None)).unwrap_err()), ("pooling".to_string(), "expected string".to_string()));
}

#[test]
fn model_settings_defaults_and_first_error() {
    let s = model_settings(no_options()).unwrap();
    assert_eq!(
        s,
        ModelSettings { n_gpu_layers: 0, use_mmap: true, use_mlock: false, embedding_mode: false, pooling: Pooling::Unspecified }
    );
    let s = model_settings(LoadOptions {
        n_gpu_layers: Some(Some(99)),
        use_mmap: Some(Some(false)),
        use_mlock: Some(Some(true)),
        embedding: Some(Some(true)),
        pooling: Some(Some("cls".to_string())),
    })
    .unwrap();
    assert_eq!(
        s,
        ModelSettings { n_gpu_layers: 99, use_mmap: false, use_mlock: true, embedding_mode: true, pooling: Pooling::Cls }
    );
    let e = model_settings(LoadOptions { use_mlock: Some(None), pooling: Some(Some("bogus".to_string())), ..no_options() })
        .unwrap_err();
    assert_eq!(invalid(e), ("use_mlock".to_string(), "expected bool".to_string()));
    let e = model_settings(LoadOptions { pooling: Some(Some("bogus".to_string())), ..no_options() }).unwrap_err();
    assert_eq!(e.to_string(), "invalid option pooling: expected one of unspecified/none/mean/cls/last/rank, got \"bogus\"");
}

#[test]
fn grammar_and_schema_options() {
    assert_eq!(get_grammar(None, None).unwrap(), None);
    assert_eq!(get_grammar(Some(Some("root ::= \"yes\" | \"no\"".to_string())), None).unwrap().as_deref(), Some("root ::= \"yes\" | \"no\""));
    assert_eq!(invalid(get_grammar(Some(None), None).unwrap_err()), ("grammar".to_string(), "expected string".to_string()));
    assert_eq!(
        invalid(get_grammar(Some(Some("x".to_string())), Some(SchemaSource::WrongType)).unwrap_err()),
        ("schema".to_string(), "'grammar' and 'schema' are mutually exclusive — pass one".to_string())
    );
    assert_eq!(
        invalid(get_grammar(Some(Some(" \n\t".to_string())), None).unwrap_err()),
        ("grammar".to_string(), "grammar string is empty".to_string())
    );
    let parse_message = serde_json::from_str::<serde_json::Value>("{\"type\": ").unwrap_err().to_string();
    assert_eq!(
        invalid(get_grammar(None, Some(SchemaSource::Text("{\"type\": ".to_string()))).unwrap_err()),
        ("schema".to_string(), format!("schema string is not valid JSON: {parse_message}"))
    );
    assert!(parse_message.contains("EOF while parsing"));
    assert_eq!(
        invalid(get_grammar(None, Some(SchemaSource::WrongType)).unwrap_err()).1,
        "expected a JSON Schema as an array or a JSON string"
    );
    let rejected = InferError::InvalidOption { name: "schema".to_string(), reason: "schema contains a non-finite float (NaN/Inf)".to_string() };
    assert_eq!(invalid(get_grammar(None, Some(SchemaSource::Rejected(rejected))).unwrap_err()).1, "schema contains a non-finite float (NaN/Inf)");
    let schema = JsonValue::Object(vec![("type".to_string(), JsonValue::String("integer".to_string()))]);
    let g = get_grammar(None, Some(SchemaSource::Json(schema))).unwrap().unwrap();
    assert!(g.starts_with("root ::= integer\n"));
    let bad = JsonValue::Number(JsonNumber::PosInt(3));
    let e = get_grammar(None, Some(SchemaSource::Json(bad))).unwrap_err();
    assert_eq!(invalid(e), ("schema".to_string(), "schema node at \"root\" must be an object, got 3".to_string()));
}

#[test]
fn schema_text_and_document_agree() {
    let text = "{\"type\": \"object\", \"properties\": {\"b\": {\"type\": \"integer\"}, \"a\": {\"enum\": [1.5, \"x\", null]}}}";
    let doc = JsonValue::Object(vec![
        ("type".to_string(), JsonValue::String("object".to_string())),
        ("properties".to_string(), JsonValue::Object(vec![
            ("b".to_string(), JsonValue::Object(vec![("type".to_string(), JsonValue::String("integer".to_string()))])),
            ("a".to_string(), JsonValue::Object(vec![("enum".to_string(), JsonValue::Array(vec![
                JsonValue::Number(JsonNumber::Float("1.5".to_string())),
                JsonValue::String("x".to_string()),
                JsonValue::Null,
            ]))])),
        ])),
    ]);
    let from_text = get_grammar(None, Some(SchemaSource::Text(text.to_string()))).unwrap().unwrap();
    let from_doc = get_grammar(None, Some(SchemaSource::Json(doc))).unwrap().unwrap();
    assert_eq!(from_text, from_doc);
    assert!(from_text.contains("root-a ::= (\"1.5\" | \"\\\"x\\\"\" | \"null\") space\n"), "{from_text}");
    let e = get_grammar(None, Some(SchemaSource::Text("[1, 2]".to_string()))).unwrap_err();
    assert_eq!(invalid(e), ("schema".to_string(), "schema node at \"root\" must be an object, got [1,2]".to_string()));
}

#[test]
fn context_and_prompt_size_checks() {
    assert_eq!(check_context_size(2048).unwrap(), 2048);
    assert_eq!(invalid(check_context_size(0).unwrap_err()), ("n_ctx".to_string(), "must be greater than zero".to_string()));
    assert_eq!(check_prompt_length(10, 2048).unwrap(), 10);
    assert_eq!(inference(check_prompt_length(2048, 2048).unwrap_err()), "prompt is 2048 tokens but n_ctx is only 2048");
    assert_eq!(inference(check_prompt_length(3000000000, 4000000000).unwrap_err()), "prompt token count overflows i32");
}

#[test]
fn generation_budget() {
    let mut g = Generation::start(5, 3);
    assert_eq!(g.position(), 5);
    let mut produced = 0;
    while !g.length_reached() {
        g.advance();
        produced += 1;
    }
    assert_eq!(produced, 3);
    assert_eq!(g.tokens_generated(), 3);
    assert_eq!(g.position(), 8);
    let g = Generation::start(1, 0);
    assert!(g.length_reached());
    let g = Generation::start(i32::MAX - 1, u32::MAX);
    assert!(!g.length_reached());
}

#[test]
fn generation_stop_reasons() {
    let mut g = Generation::start(5, 1);
    assert_eq!(g.stop_before_sampling(), None);
    assert_eq!(Generation::stop_on_token(false), None);
    g.advance();
    assert_eq!(g.stop_before_sampling(), Some(FinishReason::Length));
    assert_eq!(Generation::stop_on_token(true), Some(FinishReason::Eos));
    assert_eq!(FinishReason::Length.as_str(), "length");
    assert_eq!(Generation::stop_before_start(0), Some(FinishReason::Stop));
    assert_eq!(Generation::stop_before_start(3), None);
}

#[test]
fn embedding_input_checks() {
    assert_eq!(check_embedding_input(12).unwrap(), 12);
    assert_eq!(check_embedding_input(2048).unwrap(), 2048);
    assert_eq!(inference(check_embedding_input(0).unwrap_err()), "cannot embed empty text — tokenizer produced no tokens");
    assert_eq!(inference(check_embedding_input(2049).unwrap_err()), "input is 2049 tokens but the embedding context is 2048");
}

#[test]
fn access_after_close_and_without_embedding_mode() {
    let embedding = ModelSettings { n_gpu_layers: 0, use_mmap: true, use_mlock: false, embedding_mode: true, pooling: Pooling::Mean };
    let generating = ModelSettings { embedding_mode: false, ..embedding };
    assert_eq!(embed_access(true, &embedding).unwrap(), Pooling::Mean);
    assert!(matches!(embed_access(false, &embedding), Err(InferError::Closed)));
    assert_eq!(inference(embed_access(true, &generating).unwrap_err()), "Model::embed() requires loading with ['embedding' => true]");
    assert!(generation_access(true).is_ok());
    assert_eq!(generation_access(false).unwrap_err().to_string(), "model has been closed");
}
