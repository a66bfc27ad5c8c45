//! In-process LLM inference helpers with verified logic: JSON Schema → GBNF
//! compilation for grammar-constrained sampling, immutable chat prompts,
//! the reasoning/answer split of model output, and the option and budget
//! decisions made around llama.cpp calls.

pub mod embedding;
pub mod error;
pub mod grammar;
pub mod grammar_laws;
pub mod json;
pub mod model;
pub mod prompt;
pub mod rerank;
pub mod response;
pub mod text;
