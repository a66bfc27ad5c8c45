use ext_infer::error::InferError;

#[test]
fn each_variant_displays_its_message() {
    assert_eq!(InferError::ModelLoad("no such file: x".to_string()).to_string(), "failed to load model: no such file: x");
    assert_eq!(InferError::Inference("boom".to_string()).to_string(), "inference failed: boom");
    assert_eq!(InferError::Closed.to_string(), "model has been closed");
    assert_eq!(
        InferError::InvalidOption { name: "pooling".to_string(), reason: "bad".to_string() }.to_string(),
        "invalid option pooling: bad"
    );
    assert_eq!(InferError::InvalidConstruction("use load()".to_string()).to_string(), "use load()");
}
