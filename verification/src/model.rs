//! The decisions of `Model`: option validation, grammar selection, the
//! completion budget and the size checks around inference calls. The calls
//! into llama.cpp themselves are made around these functions.
use vstd::prelude::*;
use crate::error::{
    InferError, inference_error, invalid_option, is_inference_error, is_invalid_option,
};
use crate::grammar::{gbnf_document, is_schema_error, json_schema_to_gbnf};
use crate::json::{JsonValue, json_parse, parse_json};
use crate::response::FinishReason;
use crate::text::{
    chars_of, debug_quoted, debug_str, decimal, is_white_space, is_whitespace, push_decimal,
    push_signed_decimal, signed_decimal,
};

verus! {

/// How token states are pooled into one embedding vector.
#[derive(Debug, Clone, Copy, PartialEq, Eq, Structural)]
pub enum Pooling {
    /// Whatever the model file declares.
    Unspecified,
    /// No pooling (per-token states).
    NoPooling,
    Mean,
    Cls,
    Last,
    Rank,
}

/// The pooling an option string names, if any.
pub open spec fn pooling_named(choice: Seq<char>) -> Option<Pooling> {
    if choice == "unspecified"@ {
        Some(Pooling::Unspecified)
    } else if choice == "none"@ {
        Some(Pooling::NoPooling)
    } else if choice == "mean"@ {
        Some(Pooling::Mean)
    } else if choice == "cls"@ {
        Some(Pooling::Cls)
    } else if choice == "last"@ {
        Some(Pooling::Last)
    } else if choice == "rank"@ {
        Some(Pooling::Rank)
    } else {
        None
    }
}

/// Reads the `pooling` option: absent means `Unspecified`; anything but the
/// six names is refused.
pub fn pooling_option(choice: Option<String>) -> (r: Result<Pooling, InferError>)
    ensures
        match choice {
            None => r == Ok::<Pooling, InferError>(Pooling::Unspecified),
            Some(c) => match pooling_named(c@) {
                Some(p) => r == Ok::<Pooling, InferError>(p),
                None => r matches Err(e) && is_invalid_option(e, "pooling"@,
                    "expected one of unspecified/none/mean/cls/last/rank, got "@ + debug_quoted(c@)),
            },
        },
{
    match choice {
        None => Ok(Pooling::Unspecified),
        Some(c) => {
            let s = c.as_str();
            if crate::text::str_eq(s, "unspecified") {
                Ok(Pooling::Unspecified)
            } else if crate::text::str_eq(s, "none") {
                Ok(Pooling::NoPooling)
            } else if crate::text::str_eq(s, "mean") {
                Ok(Pooling::Mean)
            } else if crate::text::str_eq(s, "cls") {
                Ok(Pooling::Cls)
            } else if crate::text::str_eq(s, "last") {
                Ok(Pooling::Last)
            } else if crate::text::str_eq(s, "rank") {
                Ok(Pooling::Rank)
            } else {
                let mut reason = String::from_str("expected one of unspecified/none/mean/cls/last/rank, got ");
                let d = debug_str(s);
                reason.append(d.as_str());
                Err(invalid_option("pooling", reason))
            }
        },
    }
}

/// Validates an unsigned integer option. `value` is what the options array
/// holds under `key`: `None` when the key is absent, `Some(None)` when the
/// value is not an integer.
pub fn get_uint(key: &str, value: Option<Option<i64>>) -> (r: Result<Option<u32>, InferError>)
    ensures
        match value {
            None => r == Ok::<Option<u32>, InferError>(None),
            Some(None) => r matches Err(e) && is_invalid_option(e, key@, "expected integer"@),
            Some(Some(n)) => if n < 0 {
                r matches Err(e) && is_invalid_option(e, key@, "must be non-negative"@)
            } else if n > u32::MAX {
                r matches Err(e) && is_invalid_option(e, key@, "exceeds u32 range"@)
            } else {
                r == Ok::<Option<u32>, InferError>(Some(n as u32))
            },
        },
{
    match value {
        None => Ok(None),
        Some(None) => Err(invalid_option(key, String::from_str("expected integer"))),
        Some(Some(n)) => {
            if n < 0 {
                Err(invalid_option(key, String::from_str("must be non-negative")))
            } else if n > u32::MAX as i64 {
                Err(invalid_option(key, String::from_str("exceeds u32 range")))
            } else {
                Ok(Some(n as u32))
            }
        },
    }
}

/// Validates a boolean option (`Some(None)`: present but not a bool).
pub fn get_bool(key: &str, value: Option<Option<bool>>) -> (r: Result<Option<bool>, InferError>)
    ensures
        match value {
            None => r == Ok::<Option<bool>, InferError>(None),
            Some(None) => r matches Err(e) && is_invalid_option(e, key@, "expected bool"@),
            Some(Some(b)) => r == Ok::<Option<bool>, InferError>(Some(b)),
        },
{
    match value {
        None => Ok(None),
        Some(None) => Err(invalid_option(key, String::from_str("expected bool"))),
        Some(Some(b)) => Ok(Some(b)),
    }
}

/// Validates a string option (`Some(None)`: present but not a string).
pub fn get_string(key: &str, value: Option<Option<String>>) -> (r: Result<Option<String>, InferError>)
    ensures
        match value {
            None => r matches Ok(None),
            Some(None) => r matches Err(e) && is_invalid_option(e, key@, "expected string"@),
            Some(Some(s)) => r matches Ok(Some(t)) && t@ == s@,
        },
{
    match value {
        None => Ok(None),
        Some(None) => Err(invalid_option(key, String::from_str("expected string"))),
        Some(Some(s)) => Ok(Some(s)),
    }
}

/// What a model handle is loaded with.
#[derive(Debug, Clone, Copy, PartialEq, Eq, Structural)]
pub struct ModelSettings {
    pub n_gpu_layers: u32,
    pub use_mmap: bool,
    pub use_mlock: bool,
    /// Whether `embed()` is permitted on the handle.
    pub embedding_mode: bool,
    /// Pooling for embeddings.
    pub pooling: Pooling,
}

/// The load options of `Model::load()`, each as the options array holds it.
pub struct LoadOptions {
    pub n_gpu_layers: Option<Option<i64>>,
    pub use_mmap: Option<Option<bool>>,
    pub use_mlock: Option<Option<bool>>,
    pub embedding: Option<Option<bool>>,
    pub pooling: Option<Option<String>>,
}

/// What is wrong with an unsigned integer option, if anything.
pub open spec fn uint_problem(value: Option<Option<i64>>) -> Option<Seq<char>> {
    match value {
        Some(None) => Some("expected integer"@),
        Some(Some(n)) => if n < 0 {
            Some("must be non-negative"@)
        } else if n > u32::MAX {
            Some("exceeds u32 range"@)
        } else {
            None
        },
        None => None,
    }
}

/// What is wrong with a boolean option, if anything.
pub open spec fn bool_problem(value: Option<Option<bool>>) -> Option<Seq<char>> {
    if value matches Some(None) { Some("expected bool"@) } else { None }
}

/// What is wrong with a string option, if anything.
pub open spec fn string_problem(value: Option<Option<String>>) -> Option<Seq<char>> {
    if value matches Some(None) { Some("expected string"@) } else { None }
}

/// The first invalid load option: its key and what is wrong with it.
pub open spec fn load_problem(options: LoadOptions) -> Option<(Seq<char>, Seq<char>)> {
    if let Some(m) = uint_problem(options.n_gpu_layers) {
        Some(("n_gpu_layers"@, m))
    } else if let Some(m) = bool_problem(options.use_mmap) {
        Some(("use_mmap"@, m))
    } else if let Some(m) = bool_problem(options.use_mlock) {
        Some(("use_mlock"@, m))
    } else if let Some(m) = bool_problem(options.embedding) {
        Some(("embedding"@, m))
    } else if let Some(m) = string_problem(options.pooling) {
        Some(("pooling"@, m))
    } else if let Some(Some(c)) = options.pooling {
        if pooling_named(c@) is None {
            Some(("pooling"@, "expected one of unspecified/none/mean/cls/last/rank, got "@ + debug_quoted(c@)))
        } else {
            None
        }
    } else {
        None
    }
}

/// The settings valid load options give, with the defaults for absent ones.
pub open spec fn settings_of(options: LoadOptions) -> ModelSettings {
    ModelSettings {
        n_gpu_layers: match options.n_gpu_layers { Some(Some(n)) => n as u32, _ => 0 },
        use_mmap: match options.use_mmap { Some(Some(b)) => b, _ => true },
        use_mlock: match options.use_mlock { Some(Some(b)) => b, _ => false },
        embedding_mode: match options.embedding { Some(Some(b)) => b, _ => false },
        pooling: match options.pooling {
            Some(Some(c)) => pooling_named(c@).unwrap(),
            _ => Pooling::Unspecified,
        },
    }
}

/// Each setting is read from its own option: two valid option sets that
/// agree on one key give the same setting for it, whatever the other keys
/// hold.
pub proof fn lemma_settings_read_own_keys(a: LoadOptions, b: LoadOptions)
    requires
        load_problem(a) is None,
        load_problem(b) is None,
    ensures
        a.n_gpu_layers == b.n_gpu_layers ==> settings_of(a).n_gpu_layers == settings_of(b).n_gpu_layers,
        a.use_mmap == b.use_mmap ==> settings_of(a).use_mmap == settings_of(b).use_mmap,
        a.use_mlock == b.use_mlock ==> settings_of(a).use_mlock == settings_of(b).use_mlock,
        a.embedding == b.embedding ==> settings_of(a).embedding_mode == settings_of(b).embedding_mode,
        a.pooling == b.pooling ==> settings_of(a).pooling == settings_of(b).pooling,
{
}

/// A given option is taken as it is, and an absent one takes its default:
/// no GPU layers, memory-mapped, not locked, no embedding mode.
pub proof fn lemma_settings_values(o: LoadOptions)
    requires
        load_problem(o) is None,
    ensures
        o.n_gpu_layers matches Some(Some(n)) ==> settings_of(o).n_gpu_layers == n,
        o.n_gpu_layers is None ==> settings_of(o).n_gpu_layers == 0,
        o.use_mmap matches Some(Some(x)) ==> settings_of(o).use_mmap == x,
        o.use_mmap is None ==> settings_of(o).use_mmap,
        o.use_mlock matches Some(Some(x)) ==> settings_of(o).use_mlock == x,
        o.use_mlock is None ==> !settings_of(o).use_mlock,
        o.embedding matches Some(Some(x)) ==> settings_of(o).embedding_mode == x,
        o.embedding is None ==> !settings_of(o).embedding_mode,
        o.pooling is None ==> settings_of(o).pooling == Pooling::Unspecified,
{
}

/// An option of the wrong type is never let through: whenever one option
/// holds a value of the wrong type, loading fails.
pub proof fn lemma_wrong_type_refused(o: LoadOptions)
    ensures
        o.n_gpu_layers matches Some(None) ==> load_problem(o) is Some,
        o.use_mmap matches Some(None) ==> load_problem(o) is Some,
        o.use_mlock matches Some(None) ==> load_problem(o) is Some,
        o.embedding matches Some(None) ==> load_problem(o) is Some,
        o.pooling matches Some(None) ==> load_problem(o) is Some,
{
}

/// Validates the load options in order (`n_gpu_layers`, `use_mmap`,
/// `use_mlock`, `embedding`, `pooling`) and applies the defaults
/// (0, true, false, false, unspecified). The first invalid option is the error.
pub fn model_settings(options: LoadOptions) -> (r: Result<ModelSettings, InferError>)
    ensures
        match load_problem(options) {
            Some((key, reason)) => r matches Err(e) && is_invalid_option(e, key, reason),
            None => r == Ok::<ModelSettings, InferError>(settings_of(options)),
        },
{
    let n_gpu_layers = match get_uint("n_gpu_layers", options.n_gpu_layers) {
        Ok(v) => match v { Some(n) => n, None => 0 },
        Err(e) => {
            return Err(e);
        },
    };
    let use_mmap = match get_bool("use_mmap", options.use_mmap) {
        Ok(v) => match v { Some(b) => b, None => true },
        Err(e) => {
            return Err(e);
        },
    };
    let use_mlock = match get_bool("use_mlock", options.use_mlock) {
        Ok(v) => match v { Some(b) => b, None => false },
        Err(e) => {
            return Err(e);
        },
    };
    let embedding_mode = match get_bool("embedding", options.embedding) {
        Ok(v) => match v { Some(b) => b, None => false },
        Err(e) => {
            return Err(e);
        },
    };
    let choice = match get_string("pooling", options.pooling) {
        Ok(v) => v,
        Err(e) => {
            return Err(e);
        },
    };
    let pooling = match pooling_option(choice) {
        Ok(p) => p,
        Err(e) => {
            return Err(e);
        },
    };
    Ok(ModelSettings { n_gpu_layers, use_mmap, use_mlock, embedding_mode, pooling })
}

/// Where a `schema` option came from, once read.
pub enum SchemaSource {
    /// A JSON Schema document given as a value (a PHP array, converted).
    Json(JsonValue),
    /// A JSON Schema document given as JSON text, parsed here.
    Text(String),
    /// A value of the wrong type (neither array nor string).
    WrongType,
    /// An array that could not be turned into JSON; the error it raised.
    Rejected(InferError),
}

/// `r` answers a schema document `doc`: its grammar, or the schema error.
pub open spec fn document_answer(r: Result<Option<String>, InferError>, doc: JsonValue) -> bool {
    match gbnf_document(doc) {
        Ok(text) => r matches Ok(Some(t)) && t@ == text,
        Err(m) => r matches Err(e) && is_schema_error(e, m),
    }
}

/// `r` answers a `schema` option read as `source`, no `grammar` being given.
/// JSON text stands for the document it parses to.
pub open spec fn schema_answer(r: Result<Option<String>, InferError>, source: SchemaSource) -> bool {
    match source {
        SchemaSource::Json(v) => document_answer(r, v),
        SchemaSource::Text(t) => match json_parse(t@) {
            Ok(v) => document_answer(r, v),
            Err(m) => r matches Err(e) && is_invalid_option(e, "schema"@,
                "schema string is not valid JSON: "@ + m),
        },
        SchemaSource::WrongType => r matches Err(e) && is_invalid_option(e, "schema"@,
            "expected a JSON Schema as an array or a JSON string"@),
        SchemaSource::Rejected(e0) => r == Err::<Option<String>, InferError>(e0),
    }
}

/// A schema given as JSON text gets the same answer as the same schema
/// given as the document the text parses to: the same grammar, or the same
/// error.
pub proof fn lemma_text_and_document_agree(r: Result<Option<String>, InferError>, text: String, doc: JsonValue)
    requires
        json_parse(text@) == Ok::<JsonValue, Seq<char>>(doc),
    ensures
        schema_answer(r, SchemaSource::Text(text)) == schema_answer(r, SchemaSource::Json(doc)),
{
}

/// Every character of `s` is white space (`str::trim().is_empty()`).
pub open spec fn blank(s: Seq<char>) -> bool {
    forall|i: int| 0 <= i < s.len() ==> is_white_space(#[trigger] s[i])
}

/// White space is blank wherever it stands: a text is blank exactly when
/// both of any two pieces it is cut into are, and a single character is
/// blank exactly when it is white space. So a grammar is refused as empty
/// exactly when it holds nothing but white space.
pub proof fn lemma_blank_pieces(s: Seq<char>, t: Seq<char>, c: char)
    ensures
        blank(s + t) == (blank(s) && blank(t)),
        blank(seq![c]) == is_white_space(c),
        blank(Seq::<char>::empty()),
{
    if blank(s) && blank(t) {
        assert forall|i: int| 0 <= i < (s + t).len() implies is_white_space(#[trigger] (s + t)[i]) by {
            if i < s.len() {
                assert((s + t)[i] == s[i]);
            } else {
                assert((s + t)[i] == t[i - s.len()]);
            }
        }
    }
    if blank(s + t) {
        assert forall|i: int| 0 <= i < s.len() implies is_white_space(#[trigger] s[i]) by {
            assert((s + t)[i] == s[i]);
        }
        assert forall|i: int| 0 <= i < t.len() implies is_white_space(#[trigger] t[i]) by {
            assert((s + t)[i + s.len()] == t[i]);
        }
    }
    if is_white_space(c) {
        assert forall|i: int| 0 <= i < seq![c].len() implies is_white_space(#[trigger] seq![c][i]) by {
            assert(seq![c][i] == c);
        }
    }
    if blank(seq![c]) {
        assert(seq![c][0] == c);
    }
}

fn is_blank(s: &str) -> (r: bool)
    ensures
        r == blank(s@),
{
    let cs = chars_of(s);
    let mut i: usize = 0;
    while i < cs.len()
        invariant
            i <= cs@.len(),
            cs@ == s@,
            forall|j: int| 0 <= j < i ==> is_white_space(#[trigger] cs@[j]),
        decreases cs@.len() - i,
    {
        if !is_whitespace(cs[i]) {
            return false;
        }
        i = i + 1;
    }
    true
}

/// Resolves the `grammar` / `schema` options of `chat()` / `raw()` into the
/// GBNF grammar to sample with, if any. `grammar` is what the options hold
/// under that key (`Some(None)`: not a string); `schema` is present when the
/// key is. The two are mutually exclusive; a grammar must not be blank; a
/// schema is compiled to GBNF.
pub fn get_grammar(grammar: Option<Option<String>>, schema: Option<SchemaSource>) -> (r: Result<Option<String>, InferError>)
    ensures
        match grammar {
            Some(None) => r matches Err(e) && is_invalid_option(e, "grammar"@, "expected string"@),
            Some(Some(g)) => if schema is Some {
                r matches Err(e) && is_invalid_option(e, "schema"@,
                    "'grammar' and 'schema' are mutually exclusive — pass one"@)
            } else if blank(g@) {
                r matches Err(e) && is_invalid_option(e, "grammar"@, "grammar string is empty"@)
            } else {
                r matches Ok(Some(t)) && t@ == g@
            },
            None => match schema {
                None => r matches Ok(None),
                Some(source) => schema_answer(r, source),
            },
        },
{
    let grammar = match get_string("grammar", grammar) {
        Ok(g) => g,
        Err(e) => {
            return Err(e);
        },
    };
    if grammar.is_some() && schema.is_some() {
        return Err(invalid_option("schema", String::from_str("'grammar' and 'schema' are mutually exclusive — pass one")));
    }
    if let Some(g) = &grammar {
        if is_blank(g.as_str()) {
            return Err(invalid_option("grammar", String::from_str("grammar string is empty")));
        }
    }
    match schema {
        None => Ok(grammar),
        Some(SchemaSource::Json(v)) => match json_schema_to_gbnf(&v) {
            Ok(text) => Ok(Some(text)),
            Err(e) => Err(e),
        },
        Some(SchemaSource::Text(t)) => match parse_json(t.as_str()) {
            Ok(v) => match json_schema_to_gbnf(&v) {
                Ok(text) => Ok(Some(text)),
                Err(e) => Err(e),
            },
            Err(m) => {
                let mut reason = String::from_str("schema string is not valid JSON: ");
                reason.append(m.as_str());
                Err(invalid_option("schema", reason))
            },
        },
        Some(SchemaSource::WrongType) => Err(invalid_option("schema",
            String::from_str("expected a JSON Schema as an array or a JSON string"))),
        Some(SchemaSource::Rejected(e)) => Err(e),
    }
}

/// A context size must be positive.
pub fn check_context_size(n_ctx: u32) -> (r: Result<u32, InferError>)
    ensures
        n_ctx == 0 ==> (r matches Err(e) && is_invalid_option(e, "n_ctx"@, "must be greater than zero"@)),
        n_ctx != 0 ==> r == Ok::<u32, InferError>(n_ctx),
{
    if n_ctx == 0 {
        Err(invalid_option("n_ctx", String::from_str("must be greater than zero")))
    } else {
        Ok(n_ctx)
    }
}

/// Checks that a non-empty prompt of `token_count` tokens fits a context of
/// `n_ctx` tokens with room to generate; returns the count as a position.
pub fn check_prompt_length(token_count: usize, n_ctx: u32) -> (r: Result<i32, InferError>)
    ensures
        token_count > i32::MAX ==> (r matches Err(e) && is_inference_error(e, "prompt token count overflows i32"@)),
        token_count <= i32::MAX && token_count >= n_ctx ==> (r matches Err(e) && is_inference_error(e,
            "prompt is "@ + decimal(token_count as nat) + " tokens but n_ctx is only "@ + decimal(n_ctx as nat))),
        token_count <= i32::MAX && token_count < n_ctx ==> r == Ok::<i32, InferError>(token_count as i32),
{
    if token_count > i32::MAX as usize {
        return Err(inference_error(String::from_str("prompt token count overflows i32")));
    }
    let prompt_len = token_count as i32;
    if (prompt_len as u32) >= n_ctx {
        let mut m = String::from_str("prompt is ");
        push_decimal(&mut m, token_count as u64);
        m.append(" tokens but n_ctx is only ");
        push_decimal(&mut m, n_ctx as u64);
        return Err(inference_error(m));
    }
    Ok(prompt_len)
}

/// The state of a generation loop: positions and the token budget.
pub struct Generation {
    max_tokens: u32,
    /// Positions at or past this end the run (`max_tokens` past the prompt,
    /// saturating at `i32::MAX`).
    limit: i32,
    /// Position of the next token.
    n_cur: i32,
    /// Tokens generated so far.
    n_decoded: u32,
}

/// The position at which a run with a prompt of `prompt_len` tokens stops.
pub open spec fn position_limit(prompt_len: int, max_tokens: int) -> int {
    let budget = if max_tokens <= i32::MAX { max_tokens } else { i32::MAX as int };
    if budget + prompt_len > i32::MAX { i32::MAX as int } else { budget + prompt_len }
}

/// With room for the whole budget, a run stops for length exactly when it
/// has generated its budget, never before: every state a run passes
/// through (next position = prompt length + tokens generated) is exhausted
/// exactly when the tokens generated reach `max_tokens`.
pub proof fn lemma_run_stops_at_budget(g: Generation, prompt_len: int)
    requires
        0 < prompt_len,
        prompt_len + g.budget() <= i32::MAX,
        g.limit() == position_limit(prompt_len, g.budget() as int),
        g.next_position() == prompt_len + g.generated(),
    ensures
        g.exhausted() <==> g.generated() >= g.budget(),
{
}

impl Generation {
    /// A run never goes past its budget or its last position.
    #[verifier::type_invariant]
    closed spec fn within_budget(self) -> bool {
        self.n_decoded <= self.max_tokens && self.n_cur <= self.limit
    }

    /// The position of the next token.
    pub closed spec fn next_position(&self) -> int {
        self.n_cur as int
    }

    /// Tokens generated so far.
    pub closed spec fn generated(&self) -> nat {
        self.n_decoded as nat
    }

    /// The token budget.
    pub closed spec fn budget(&self) -> nat {
        self.max_tokens as nat
    }

    /// The position at which the run stops.
    pub closed spec fn limit(&self) -> int {
        self.limit as int
    }

    /// The run has used its budget.
    pub open spec fn exhausted(&self) -> bool {
        self.generated() >= self.budget() || self.next_position() >= self.limit()
    }

    /// A run after a prompt of `prompt_len` tokens, allowed `max_tokens` tokens.
    pub fn start(prompt_len: i32, max_tokens: u32) -> (g: Self)
        requires
            prompt_len > 0,
        ensures
            g.next_position() == prompt_len,
            g.generated() == 0,
            g.budget() == max_tokens,
            g.limit() == position_limit(prompt_len as int, max_tokens as int),
    {
        let budget: i32 = if max_tokens <= i32::MAX as u32 { max_tokens as i32 } else { i32::MAX };
        let limit: i32 = if budget > i32::MAX - prompt_len { i32::MAX } else { budget + prompt_len };
        Generation { max_tokens, limit, n_cur: prompt_len, n_decoded: 0 }
    }

    /// Whether the run stops for length before sampling another token.
    pub fn length_reached(&self) -> (r: bool)
        ensures
            r == self.exhausted(),
    {
        self.n_decoded >= self.max_tokens || self.n_cur >= self.limit
    }

    /// The position at which the next token goes.
    pub fn position(&self) -> (r: i32)
        ensures
            r == self.next_position(),
            r <= self.limit(),
    {
        proof {
            use_type_invariant(self);
        }
        self.n_cur
    }

    /// Records one generated token.
    pub fn advance(&mut self)
        requires
            !old(self).exhausted(),
        ensures
            final(self).next_position() == old(self).next_position() + 1,
            final(self).generated() == old(self).generated() + 1,
            final(self).budget() == old(self).budget(),
            final(self).limit() == old(self).limit(),
    {
        proof {
            use_type_invariant(&*self);
        }
        let n_cur = self.n_cur + 1;
        let n_decoded = self.n_decoded + 1;
        *self = Generation { max_tokens: self.max_tokens, limit: self.limit, n_cur, n_decoded };
    }

    /// Whether a run stops before it starts: for `Stop`, with nothing
    /// generated, when the prompt has no tokens.
    pub fn stop_before_start(token_count: usize) -> (r: Option<FinishReason>)
        ensures
            r == (if token_count == 0 { Some(FinishReason::Stop) } else { None::<FinishReason> }),
    {
        if token_count == 0 {
            Some(FinishReason::Stop)
        } else {
            None
        }
    }

    /// Whether the run stops before sampling another token: for `Length`
    /// once the budget or the last position is reached.
    pub fn stop_before_sampling(&self) -> (r: Option<FinishReason>)
        ensures
            r == (if self.exhausted() { Some(FinishReason::Length) } else { None::<FinishReason> }),
    {
        if self.length_reached() {
            Some(FinishReason::Length)
        } else {
            None
        }
    }

    /// Whether the run stops on the token just sampled: for `Eos` when it
    /// is an end-of-generation token, which is then not kept.
    pub fn stop_on_token(end_of_generation: bool) -> (r: Option<FinishReason>)
        ensures
            r == (if end_of_generation { Some(FinishReason::Eos) } else { None::<FinishReason> }),
    {
        if end_of_generation {
            Some(FinishReason::Eos)
        } else {
            None
        }
    }

    /// Tokens generated so far; never more than the budget.
    pub fn tokens_generated(&self) -> (r: u32)
        ensures
            r == self.generated(),
            r <= self.budget(),
    {
        proof {
            use_type_invariant(self);
        }
        self.n_decoded
    }
}

/// The context size used for embeddings.
pub const EMBED_DEFAULT_N_CTX: u32 = 2048;

/// Checks the token count of an embedding input; returns it as a position.
pub fn check_embedding_input(token_count: usize) -> (r: Result<i32, InferError>)
    ensures
        token_count == 0 ==> (r matches Err(e) && is_inference_error(e,
            "cannot embed empty text — tokenizer produced no tokens"@)),
        token_count > i32::MAX ==> (r matches Err(e) && is_inference_error(e, "input token count overflows i32"@)),
        0 < token_count <= i32::MAX && token_count > EMBED_DEFAULT_N_CTX ==> (r matches Err(e) && is_inference_error(e,
            "input is "@ + decimal(token_count as nat) + " tokens but the embedding context is "@
                + decimal(EMBED_DEFAULT_N_CTX as nat))),
        0 < token_count <= EMBED_DEFAULT_N_CTX ==> r == Ok::<i32, InferError>(token_count as i32),
{
    if token_count == 0 {
        return Err(inference_error(String::from_str("cannot embed empty text — tokenizer produced no tokens")));
    }
    if token_count > i32::MAX as usize {
        return Err(inference_error(String::from_str("input token count overflows i32")));
    }
    let count = token_count as i32;
    if (count as u32) > EMBED_DEFAULT_N_CTX {
        let mut m = String::from_str("input is ");
        push_decimal(&mut m, token_count as u64);
        m.append(" tokens but the embedding context is ");
        push_decimal(&mut m, EMBED_DEFAULT_N_CTX as u64);
        return Err(inference_error(m));
    }
    Ok(count)
}

/// What `embed()` may do on a handle: refused once closed, and on a handle
/// not loaded for embeddings; otherwise embeds with the handle's pooling.
pub fn embed_access(open: bool, settings: &ModelSettings) -> (r: Result<Pooling, InferError>)
    ensures
        !open ==> (r matches Err(InferError::Closed)),
        open && !settings.embedding_mode ==> (r matches Err(e) && is_inference_error(e,
            "Model::embed() requires loading with ['embedding' => true]"@)),
        open && settings.embedding_mode ==> r == Ok::<Pooling, InferError>(settings.pooling),
{
    if !open {
        return Err(InferError::Closed);
    }
    if !settings.embedding_mode {
        return Err(inference_error(String::from_str("Model::embed() requires loading with ['embedding' => true]")));
    }
    Ok(settings.pooling)
}

/// Generation on a handle is refused once it is closed.
pub fn generation_access(open: bool) -> (r: Result<(), InferError>)
    ensures
        !open ==> (r matches Err(InferError::Closed)),
        open ==> r is Ok,
{
    if open {
        Ok(())
    } else {
        Err(InferError::Closed)
    }
}

} // verus!
