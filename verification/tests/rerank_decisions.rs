use ext_infer::error::InferError;
use ext_infer::rerank::{check_judgment_length, rank_keep, rerank_prompt, rerank_settings, single_token, RerankOptions};

fn no_options() -> RerankOptions {
    RerankOptions { n_gpu_layers: None, use_mmap: None, use_mlock: None, n_ctx: None, instruction: None }
}

#[test]
fn judgment_prompt_text() {
    let p = rerank_prompt("Find docs", "reset password?", "Click 'forgot'.");
    assert_eq!(
        p,
        "<|im_start|>system\nJudge whether the Document meets the requirements based on the Query and the Instruct provided. Note that the answer can only be \"yes\" or \"no\".<|im_end|>\n<|im_start|>user\n<Instruct>: Find docs\n<Query>: reset password?\n<Document>: Click 'forgot'.<|im_end|>\n<|im_start|>assistant\n<think>\n\n</think>\n\n"
    );
}

#[test]
fn settings_defaults_and_errors() {
    let s = rerank_settings(no_options()).unwrap();
    assert_eq!(s.n_ctx, 4096);
    assert_eq!(s.n_gpu_layers, 0);
    assert!(s.use_mmap);
    assert!(!s.use_mlock);
    assert_eq!(s.instruction, "Given a web search query, retrieve relevant passages that answer the query");
    let s = rerank_settings(RerankOptions { n_ctx: Some(Some(512)), instruction: Some(Some("KB".to_string())), ..no_options() }).unwrap();
    assert_eq!(s.n_ctx, 512);
    assert_eq!(s.instruction, "KB");
    let e = rerank_settings(RerankOptions { n_ctx: Some(Some(0)), ..no_options() }).err().unwrap();
    assert_eq!(e.to_string(), "invalid option n_ctx: must be greater than zero");
    let e = rerank_settings(RerankOptions { n_ctx: Some(Some(0)), instruction: Some(None), ..no_options() }).err().unwrap();
    assert_eq!(e.to_string(), "invalid option instruction: expected string");
}

#[test]
fn yes_no_must_be_single_tokens() {
    assert_eq!(single_token("yes", &[9693]).unwrap(), 9693);
    match single_token("no", &[1, 2]) {
        Err(InferError::ModelLoad(m)) => assert_eq!(
            m,
            "model is not usable as a yes/no reranker: \"no\" tokenizes to 2 tokens (expected 1) — RerankModel targets the Qwen3-Reranker GGUF family"
        ),
        other => panic!("unexpected {:?}", other),
    }
    assert!(single_token("yes", &[]).is_err());
}

#[test]
fn top_k_rules() {
    assert_eq!(rank_keep(None, 7).unwrap(), 7);
    assert_eq!(rank_keep(Some(3), 7).unwrap(), 3);
    assert_eq!(rank_keep(Some(30), 7).unwrap(), 30);
    assert_eq!(rank_keep(Some(0), 7).unwrap_err().to_string(), "invalid option topK: must be at least 1, got 0");
    assert_eq!(rank_keep(Some(-5), 7).unwrap_err().to_string(), "invalid option topK: must be at least 1, got -5");
}

#[test]
fn judgment_length_checks() {
    assert_eq!(check_judgment_length(100, 4096).unwrap(), 100);
    assert_eq!(check_judgment_length(4096, 4096).unwrap(), 4096);
    assert_eq!(check_judgment_length(0, 4096).unwrap_err().to_string(), "inference failed: empty rerank prompt");
    assert_eq!(
        check_judgment_length(5000, 4096).unwrap_err().to_string(),
        "inference failed: query + document render to 5000 tokens but n_ctx is 4096 — raise ['n_ctx' => ...] at load time or chunk the document"
    );
}
