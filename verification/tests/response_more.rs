use ext_infer::response::{split_thinking, trim_start_str, FinishReason, Response};

#[test]
fn finish_reasons_have_their_names() {
    assert_eq!(FinishReason::Eos.as_str(), "eos");
    assert_eq!(FinishReason::Length.as_str(), "length");
    assert_eq!(FinishReason::Stop.as_str(), "stop");
}

#[test]
fn untagged_output_is_its_own_answer() {
    let r = Response::new("  plain reply\n".to_string(), FinishReason::Length, 3);
    assert!(!r.has_reasoning());
    assert_eq!(r.reasoning(), None);
    assert_eq!(r.answer(), r.text());
    assert_eq!(r.finish_reason(), "length");
}

#[test]
fn unclosed_block_alone_keeps_everything() {
    let (reasoning, answer) = split_thinking("  <think>still thinking");
    assert_eq!(reasoning, None);
    assert_eq!(answer, "  <think>still thinking");
}

#[test]
fn empty_block_is_still_a_block() {
    let (reasoning, answer) = split_thinking("<think></think>\u{3000}\t answer ");
    assert_eq!(reasoning.as_deref(), Some(""));
    assert_eq!(answer, "answer ");
}

#[test]
fn trim_start_strips_unicode_white_space_only() {
    assert_eq!(trim_start_str("\u{a0}\u{2003}\n x y"), "x y");
    assert_eq!(trim_start_str("\u{200b}x"), "\u{200b}x");
    assert_eq!(trim_start_str(""), "");
}

#[test]
fn response_construction_is_refused() {
    let e = Response::__construct().err().expect("refused");
    assert_eq!(e.to_string(), "Displace\\Infer\\Response is produced by Model::chat(); do not instantiate directly");
}
