//! The decisions of `RerankModel`: load options, the judgment prompt,
//! the yes/no token check, `topK` and the prompt-size check. The scoring
//! itself (logits, softmax) is floating point and runs around these.
use vstd::prelude::*;
use crate::error::{
    InferError, inference_error, invalid_option, is_inference_error, is_invalid_option,
    is_model_load_error, model_load_error,
};
use crate::model::{bool_problem, get_bool, get_string, get_uint, string_problem, uint_problem};
use crate::text::{debug_quoted, debug_str, decimal, push_decimal, push_signed_decimal, signed_decimal};

verus! {

/// The instruction used when the caller gives none.
pub const DEFAULT_INSTRUCTION: &'static str =
    "Given a web search query, retrieve relevant passages that answer the query";

/// Context size per scoring call when the caller gives none.
pub const DEFAULT_N_CTX: u32 = 4096;

/// What a reranker handle is loaded with.
pub struct RerankSettings {
    pub n_gpu_layers: u32,
    pub use_mmap: bool,
    pub use_mlock: bool,
    pub n_ctx: u32,
    pub instruction: String,
}

/// The load options of `RerankModel::load()`, each as the options array holds it.
pub struct RerankOptions {
    pub n_gpu_layers: Option<Option<i64>>,
    pub use_mmap: Option<Option<bool>>,
    pub use_mlock: Option<Option<bool>>,
    pub n_ctx: Option<Option<i64>>,
    pub instruction: Option<Option<String>>,
}

/// The first invalid reranker option: its key and what is wrong with it.
pub open spec fn rerank_problem(options: RerankOptions) -> Option<(Seq<char>, Seq<char>)> {
    if let Some(m) = uint_problem(options.n_gpu_layers) {
        Some(("n_gpu_layers"@, m))
    } else if let Some(m) = bool_problem(options.use_mmap) {
        Some(("use_mmap"@, m))
    } else if let Some(m) = bool_problem(options.use_mlock) {
        Some(("use_mlock"@, m))
    } else if let Some(m) = uint_problem(options.n_ctx) {
        Some(("n_ctx"@, m))
    } else if let Some(m) = string_problem(options.instruction) {
        Some(("instruction"@, m))
    } else if options.n_ctx matches Some(Some(n)) && n == 0 {
        Some(("n_ctx"@, "must be greater than zero"@))
    } else {
        None
    }
}

/// Validates the load options in order (`n_gpu_layers`, `use_mmap`,
/// `use_mlock`, `n_ctx`, `instruction`), applies the defaults (0, true,
/// false, 4096, the web-search instruction) and refuses a zero `n_ctx`.
pub fn rerank_settings(options: RerankOptions) -> (r: Result<RerankSettings, InferError>)
    ensures
        match rerank_problem(options) {
            Some((key, reason)) => r matches Err(e) && is_invalid_option(e, key, reason),
            None => r matches Ok(s) && {
                &&& s.n_gpu_layers == (match options.n_gpu_layers { Some(Some(n)) => n as u32, _ => 0 })
                &&& s.use_mmap == (match options.use_mmap { Some(Some(b)) => b, _ => true })
                &&& s.use_mlock == (match options.use_mlock { Some(Some(b)) => b, _ => false })
                &&& s.n_ctx == (match options.n_ctx { Some(Some(n)) => n as u32, _ => DEFAULT_N_CTX })
                &&& s.instruction@ == (match options.instruction {
                    Some(Some(t)) => t@,
                    _ => DEFAULT_INSTRUCTION@,
                })
            },
        },
{
    let n_gpu_layers = match get_uint("n_gpu_layers", options.n_gpu_layers) {
        Ok(v) => match v { Some(n) => n, None => 0 },
        Err(e) => {
            return Err(e);
        },
    };
    let use_mmap = match get_bool("use_mmap", options.use_mmap) {
        Ok(v) => match v { Some(b) => b, None => true },
        Err(e) => {
            return Err(e);
        },
    };
    let use_mlock = match get_bool("use_mlock", options.use_mlock) {
        Ok(v) => match v { Some(b) => b, None => false },
        Err(e) => {
            return Err(e);
        },
    };
    let n_ctx = match get_uint("n_ctx", options.n_ctx) {
        Ok(v) => match v { Some(n) => n, None => DEFAULT_N_CTX },
        Err(e) => {
            return Err(e);
        },
    };
    let instruction = match get_string("instruction", options.instruction) {
        Ok(v) => match v { Some(t) => t, None => String::from_str(DEFAULT_INSTRUCTION) },
        Err(e) => {
            return Err(e);
        },
    };
    if n_ctx == 0 {
        return Err(invalid_option("n_ctx", String::from_str("must be greater than zero")));
    }
    Ok(RerankSettings { n_gpu_layers, use_mmap, use_mlock, n_ctx, instruction })
}

pub const JUDGMENT_HEAD: &'static str = "<|im_start|>system\nJudge whether the Document meets the requirements based on the Query and the Instruct provided. Note that the answer can only be \"yes\" or \"no\".<|im_end|>\n<|im_start|>user\n<Instruct>: ";
pub const JUDGMENT_QUERY: &'static str = "\n<Query>: ";
pub const JUDGMENT_DOCUMENT: &'static str = "\n<Document>: ";
pub const JUDGMENT_TAIL: &'static str = "<|im_end|>\n<|im_start|>assistant\n<think>\n\n</think>\n\n";

/// The judgment prompt for one (query, document) pair: the reranker's
/// system turn, the user turn with instruction, query and document, and an
/// open assistant turn after an empty `<think>` block.
pub open spec fn judgment_prompt(instruction: Seq<char>, query: Seq<char>, document: Seq<char>) -> Seq<char> {
    JUDGMENT_HEAD@ + instruction + JUDGMENT_QUERY@ + query + JUDGMENT_DOCUMENT@ + document + JUDGMENT_TAIL@
}

/// Renders the judgment prompt.
pub fn rerank_prompt(instruction: &str, query: &str, document: &str) -> (out: String)
    ensures
        out@ == judgment_prompt(instruction@, query@, document@),
{
    let mut out = String::from_str(JUDGMENT_HEAD);
    out.append(instruction);
    out.append(JUDGMENT_QUERY);
    out.append(query);
    out.append(JUDGMENT_DOCUMENT);
    out.append(document);
    out.append(JUDGMENT_TAIL);
    out
}

/// The single token id `text` tokenizes to, or why the model cannot be
/// scored by yes/no logits.
pub fn single_token(text: &str, tokens: &[i32]) -> (r: Result<i32, InferError>)
    ensures
        tokens@.len() == 1 ==> r == Ok::<i32, InferError>(tokens@[0]),
        tokens@.len() != 1 ==> (r matches Err(e) && is_model_load_error(e,
            "model is not usable as a yes/no reranker: "@ + debug_quoted(text@) + " tokenizes to "@
                + decimal(tokens@.len()) + " tokens (expected 1) — RerankModel targets the Qwen3-Reranker GGUF family"@)),
{
    if tokens.len() == 1 {
        return Ok(tokens[0]);
    }
    let mut m = String::from_str("model is not usable as a yes/no reranker: ");
    let d = debug_str(text);
    m.append(d.as_str());
    m.append(" tokenizes to ");
    push_decimal(&mut m, tokens.len() as u64);
    m.append(" tokens (expected 1) — RerankModel targets the Qwen3-Reranker GGUF family");
    Err(model_load_error(m))
}

/// How many rows `rank()` keeps: all without `topK`, `topK` otherwise (a
/// `topK` beyond the platform's `usize` keeps all); a `topK` below 1 is refused.
pub fn rank_keep(top_k: Option<i64>, n_documents: usize) -> (r: Result<usize, InferError>)
    ensures
        match top_k {
            None => r == Ok::<usize, InferError>(n_documents),
            Some(k) => if k >= 1 {
                if k <= usize::MAX {
                    r == Ok::<usize, InferError>(k as usize)
                } else {
                    r == Ok::<usize, InferError>(n_documents)
                }
            } else {
                r matches Err(e) && is_invalid_option(e, "topK"@, "must be at least 1, got "@ + signed_decimal(k as int))
            },
        },
{
    match top_k {
        None => Ok(n_documents),
        Some(k) => {
            if k >= 1 {
                if (k as u64) <= (usize::MAX as u64) {
                    Ok(k as usize)
                } else {
                    Ok(n_documents)
                }
            } else {
                let mut reason = String::from_str("must be at least 1, got ");
                push_signed_decimal(&mut reason, k);
                Err(invalid_option("topK", reason))
            }
        },
    }
}

/// Checks the token count of a rendered judgment prompt against `n_ctx`;
/// returns the count as a position.
pub fn check_judgment_length(token_count: usize, n_ctx: u32) -> (r: Result<i32, InferError>)
    ensures
        token_count > i32::MAX ==> (r matches Err(e) && is_inference_error(e, "prompt token count overflows i32"@)),
        token_count == 0 ==> (r matches Err(e) && is_inference_error(e, "empty rerank prompt"@)),
        0 < token_count <= i32::MAX && token_count > n_ctx ==> (r matches Err(e) && is_inference_error(e,
            "query + document render to "@ + decimal(token_count as nat) + " tokens but n_ctx is "@ + decimal(n_ctx as nat)
                + " — raise ['n_ctx' => ...] at load time or chunk the document"@)),
        0 < token_count <= n_ctx && token_count <= i32::MAX ==> r == Ok::<i32, InferError>(token_count as i32),
{
    if token_count > i32::MAX as usize {
        return Err(inference_error(String::from_str("prompt token count overflows i32")));
    }
    let count = token_count as i32;
    if token_count == 0 {
        return Err(inference_error(String::from_str("empty rerank prompt")));
    }
    if (count as u32) > n_ctx {
        let mut m = String::from_str("query + document render to ");
        push_decimal(&mut m, token_count as u64);
        m.append(" tokens but n_ctx is ");
        push_decimal(&mut m, n_ctx as u64);
        m.append(" — raise ['n_ctx' => ...] at load time or chunk the document");
        return Err(inference_error(m));
    }
    Ok(count)
}

} // verus!
