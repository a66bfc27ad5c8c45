//! The error type every fallible operation of the library returns.
use vstd::prelude::*;

verus! {

/// Why an operation failed. Each variant has its own exception class on the
/// PHP side (`ModelLoad` → load failures, `Inference`/`Closed` → runtime
/// failures, the rest → the base exception).
#[derive(Debug)]
pub enum InferError {
    /// Failed to load a GGUF model from disk.
    ModelLoad(String),
    /// Inference failed mid-completion.
    Inference(String),
    /// The model handle has already been closed and cannot be used again.
    Closed,
    /// A caller-supplied option was malformed (wrong type, out of range).
    InvalidOption {
        /// The option key as supplied by the caller.
        name: String,
        /// Human-readable explanation of what was wrong.
        reason: String,
    },
    /// Direct construction is not supported; the text names the right factory.
    InvalidConstruction(String),
}

/// The text an error displays.
pub open spec fn error_text(e: InferError) -> Seq<char> {
    match e {
        InferError::ModelLoad(m) => "failed to load model: "@ + m@,
        InferError::Inference(m) => "inference failed: "@ + m@,
        InferError::Closed => "model has been closed"@,
        InferError::InvalidOption { name, reason } => "invalid option "@ + name@ + ": "@ + reason@,
        InferError::InvalidConstruction(m) => m@,
    }
}

/// `e` is an `InvalidOption` error for option `option` with reason `reason`.
pub open spec fn is_invalid_option(e: InferError, option: Seq<char>, reason: Seq<char>) -> bool {
    e matches InferError::InvalidOption { name, reason: r } && name@ == option && r@ == reason
}

/// `e` is an `Inference` error carrying `message`.
pub open spec fn is_inference_error(e: InferError, message: Seq<char>) -> bool {
    e matches InferError::Inference(m) && m@ == message
}

/// `e` is a `ModelLoad` error carrying `message`.
pub open spec fn is_model_load_error(e: InferError, message: Seq<char>) -> bool {
    e matches InferError::ModelLoad(m) && m@ == message
}

/// `e` is an `InvalidConstruction` error carrying `message`.
pub open spec fn is_construction_error(e: InferError, message: Seq<char>) -> bool {
    e matches InferError::InvalidConstruction(m) && m@ == message
}

impl InferError {
    /// The message the error displays.
    pub fn to_string(&self) -> (out: String)
        ensures
            out@ == error_text(*self),
    {
        match self {
            InferError::ModelLoad(m) => {
                let mut out = String::from_str("failed to load model: ");
                out.append(m.as_str());
                out
            },
            InferError::Inference(m) => {
                let mut out = String::from_str("inference failed: ");
                out.append(m.as_str());
                out
            },
            InferError::Closed => String::from_str("model has been closed"),
            InferError::InvalidOption { name, reason } => {
                let mut out = String::from_str("invalid option ");
                out.append(name.as_str());
                out.append(": ");
                out.append(reason.as_str());
                out
            },
            InferError::InvalidConstruction(m) => m.clone(),
        }
    }
}

/// An `InvalidOption` error for option `option`.
pub fn invalid_option(option: &str, reason: String) -> (e: InferError)
    ensures
        is_invalid_option(e, option@, reason@),
{
    InferError::InvalidOption { name: String::from_str(option), reason }
}

/// An `Inference` error.
pub fn inference_error(message: String) -> (e: InferError)
    ensures
        is_inference_error(e, message@),
{
    InferError::Inference(message)
}

/// A `ModelLoad` error.
pub fn model_load_error(message: String) -> (e: InferError)
    ensures
        is_model_load_error(e, message@),
{
    InferError::ModelLoad(message)
}

/// An `InvalidConstruction` error.
pub fn construction_error(message: &str) -> (e: InferError)
    ensures
        is_construction_error(e, message@),
{
    InferError::InvalidConstruction(String::from_str(message))
}

} // verus!
