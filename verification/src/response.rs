//! The result of a chat completion: the raw text, split into the reasoning
//! (`<think>...</think>` blocks) and the answer.
use vstd::prelude::*;
use crate::error::{InferError, construction_error, is_construction_error};
use crate::text::{
    chars_of, find, find_chars, find_from, is_whitespace, is_white_space, join, join_strings,
    leading_white_space, occurs_at, string_of_range, trim_start, views,
};

verus! {

/// Why generation stopped.
#[derive(Debug, Clone, Copy, PartialEq, Eq, Structural)]
pub enum FinishReason {
    /// Sampling produced an end-of-generation token.
    Eos,
    /// `max_tokens` was reached before the model emitted end-of-generation.
    Length,
    /// Generation completed without either (e.g. an empty prompt).
    Stop,
}

/// The name a finish reason is reported under.
pub open spec fn finish_reason_text(reason: FinishReason) -> Seq<char> {
    match reason {
        FinishReason::Eos => "eos"@,
        FinishReason::Length => "length"@,
        FinishReason::Stop => "stop"@,
    }
}

impl FinishReason {
    /// `"eos"`, `"length"` or `"stop"`.
    pub fn as_str(self) -> (r: &'static str)
        ensures
            r@ == finish_reason_text(self),
    {
        match self {
            FinishReason::Eos => "eos",
            FinishReason::Length => "length",
            FinishReason::Stop => "stop",
        }
    }
}

/// The tag that opens a reasoning block.
pub open spec fn think_open() -> Seq<char> {
    seq!['<', 't', 'h', 'i', 'n', 'k', '>']
}

/// The tag that closes a reasoning block.
pub open spec fn think_close() -> Seq<char> {
    seq!['<', '/', 't', 'h', 'i', 'n', 'k', '>']
}

/// Scans `rest` for `<think>...</think>` blocks: the block contents in order,
/// the text outside them, and whether the scan ended at an unclosed `<think>`
/// (whose tail then stays in the text verbatim).
pub open spec fn scan_blocks(rest: Seq<char>) -> (Seq<Seq<char>>, Seq<char>, bool)
    decreases rest.len(),
{
    match find(rest, think_open()) {
        None => (seq![], rest, false),
        Some(start) => {
            let after = rest.skip(start + 7);
            match find(after, think_close()) {
                None => (seq![], rest, true),
                Some(end) => {
                    if 0 <= start && start + 7 <= rest.len() && 0 <= end && end + 8 <= after.len() {
                        let (parts, out, unclosed) = scan_blocks(after.skip(end + 8));
                        (seq![after.take(end)] + parts, rest.take(start) + out, unclosed)
                    } else {
                        (seq![], rest, false)
                    }
                },
            }
        },
    }
}

/// `(reasoning, answer)` for raw model output `text`:
/// the reasoning joins every complete block with a blank line (none when
/// there is no complete block); the answer is the text without the blocks,
/// leading white space trimmed when a block was removed and no unclosed
/// `<think>` remains, and the text itself when there was no block.
pub open spec fn split_thinking_spec(text: Seq<char>) -> (Option<Seq<char>>, Seq<char>) {
    let (parts, out, unclosed) = scan_blocks(text);
    let reasoning = if parts.len() == 0 { None } else { Some(join(parts, seq!['\n', '\n'])) };
    let answer = if parts.len() == 0 || unclosed { out } else { trim_start(out) };
    (reasoning, answer)
}

proof fn lemma_find_from_bounds(s: Seq<char>, pat: Seq<char>, from: int)
    ensures
        find_from(s, pat, from) matches Some(i) ==> from <= i && occurs_at(s, pat, i),
    decreases s.len() - from,
{
    if !(from < 0 || from + pat.len() > s.len()) && !occurs_at(s, pat, from) && from < s.len() {
        lemma_find_from_bounds(s, pat, from + 1);
    }
}

/// Searching a suffix is searching the whole from the suffix's start.
proof fn lemma_find_skip(s: Seq<char>, pat: Seq<char>, p: int, k: int)
    requires
        0 <= p <= s.len(),
        0 <= k,
    ensures
        find_from(s.skip(p), pat, k) == (match find_from(s, pat, p + k) {
            Some(i) => Some(i - p),
            None => None,
        }),
    decreases s.len() - (p + k),
{
    let t = s.skip(p);
    if k + pat.len() > t.len() {
    } else {
        assert(occurs_at(t, pat, k) == occurs_at(s, pat, p + k)) by {
            assert(t.subrange(k, k + pat.len()) =~= s.subrange(p + k, p + k + pat.len()));
        }
        if !occurs_at(t, pat, k) && k < t.len() {
            lemma_find_skip(s, pat, p, k + 1);
        }
    }
}

/// When no block is captured, the text outside blocks is the whole input.
proof fn lemma_scan_without_parts(rest: Seq<char>)
    ensures
        scan_blocks(rest).0.len() == 0 ==> scan_blocks(rest).1 == rest,
    decreases rest.len(),
{
}

/// Output without a complete `<think>...</think>` block has no reasoning, and
/// its answer is the text itself, unchanged.
pub proof fn lemma_no_reasoning_keeps_text(text: Seq<char>)
    ensures
        split_thinking_spec(text).0 is None ==> split_thinking_spec(text).1 == text,
{
    lemma_scan_without_parts(text);
}

/// Output that never opens a `<think>` tag has no reasoning, and its answer
/// is the text itself, unchanged.
pub proof fn lemma_untagged_output_unchanged(text: Seq<char>)
    requires
        forall|i: int| !occurs_at(text, think_open(), i),
    ensures
        split_thinking_spec(text) == (None::<Seq<char>>, text),
{
    lemma_find_from_bounds(text, think_open(), 0);
    assert(find(text, think_open()) is None);
}

/// Combines the scan of a prefix with the scan of the rest.
pub open spec fn after_prefix(parts: Seq<Seq<char>>, out: Seq<char>, rest: (Seq<Seq<char>>, Seq<char>, bool)) -> (Seq<Seq<char>>, Seq<char>, bool) {
    (parts + rest.0, out + rest.1, rest.2)
}

/// Text without its leading white space (`str::trim_start`).
pub fn trim_start_str(s: &str) -> (out: String)
    ensures
        out@ == trim_start(s@),
{
    let cs = chars_of(s);
    let mut i: usize = 0;
    assert(cs@.skip(0) =~= cs@);
    while i < cs.len() && is_whitespace(cs[i])
        invariant
            i <= cs@.len(),
            cs@ == s@,
            leading_white_space(cs@) == i + leading_white_space(cs@.skip(i as int)),
        decreases cs@.len() - i,
    {
        assert(cs@.skip(i as int).drop_first() =~= cs@.skip(i + 1));
        i = i + 1;
    }
    string_of_range(&cs, i, cs.len())
}

/// Pulls `<think>...</think>` blocks out of model output, returning
/// `(reasoning, answer)`.
///
/// - Every complete block is captured; multiple blocks are joined with a
///   blank line.
/// - The answer is the input minus those blocks; when at least one block was
///   removed, leading white space is trimmed. With no block the input is
///   returned untouched.
/// - An unclosed `<think>` is left in the answer verbatim; blocks captured
///   before it are still returned as the reasoning.
pub fn split_thinking(text: &str) -> (r: (Option<String>, String))
    ensures
        r.1@ == split_thinking_spec(text@).1,
        match r.0 {
            Some(s) => split_thinking_spec(text@).0 == Some(s@),
            None => split_thinking_spec(text@).0 is None,
        },
{
    let cs = chars_of(text);
    let open = chars_of("<think>");
    let close = chars_of("</think>");
    proof {
        reveal_strlit("<think>");
        reveal_strlit("</think>");
        assert(open@ =~= think_open());
        assert(close@ =~= think_close());
    }
    let mut reasoning_parts: Vec<String> = Vec::new();
    let mut out = String::new();
    let mut pos: usize = 0;
    let mut unclosed = false;
    let n: usize = cs.len();
    assert(cs@.skip(0) =~= cs@);
    assert(views(reasoning_parts@) =~= Seq::<Seq<char>>::empty());
    assert(after_prefix(views(reasoning_parts@), out@, scan_blocks(cs@)) =~~= scan_blocks(cs@));
    loop
        invariant_except_break
            n == cs@.len(),
            !unclosed,
            pos <= cs@.len(),
            cs@ == text@,
            open@ == think_open(),
            close@ == think_close(),
            scan_blocks(text@) == after_prefix(views(reasoning_parts@), out@, scan_blocks(cs@.skip(pos as int))),
        ensures
            scan_blocks(text@) == (views(reasoning_parts@), out@, unclosed),
        decreases cs@.len() - pos,
    {
        let ghost rest = cs@.skip(pos as int);
        proof {
            lemma_find_skip(cs@, think_open(), pos as int, 0);
            lemma_find_from_bounds(cs@, think_open(), pos as int);
        }
        match find_chars(&cs, &open, pos) {
            None => {
                let tail = string_of_range(&cs, pos, cs.len());
                let ghost old_out = out@;
                out.append(tail.as_str());
                proof {
                    assert(rest =~= cs@.subrange(pos as int, cs@.len() as int));
                    assert(scan_blocks(rest) == (Seq::<Seq<char>>::empty(), rest, false));
                    assert(views(reasoning_parts@) + Seq::<Seq<char>>::empty() =~= views(reasoning_parts@));
                    assert(out@ =~= old_out + rest);
                }
                break;
            },
            Some(start) => {
                let after: usize = start + 7;
                proof {
                    lemma_find_skip(cs@, think_close(), after as int, 0);
                    lemma_find_from_bounds(cs@, think_close(), after as int);
                    assert(rest.skip(start - pos + 7) =~= cs@.skip(after as int));
                }
                match find_chars(&cs, &close, after) {
                    Some(end) => {
                        let segment = string_of_range(&cs, pos, start);
                        let ghost old_out = out@;
                        out.append(segment.as_str());
                        let part = string_of_range(&cs, after, end);
                        let ghost old_parts = views(reasoning_parts@);
                        reasoning_parts.push(part);
                        proof {
                            let after_s = cs@.skip(after as int);
                            assert(after_s.take(end - after) =~= cs@.subrange(after as int, end as int));
                            assert(after_s.skip(end - after + 8) =~= cs@.skip(end + 8));
                            assert(rest.take(start - pos) =~= cs@.subrange(pos as int, start as int));
                            assert(views(reasoning_parts@) =~= old_parts.push(part@));
                            let inner = scan_blocks(cs@.skip(end + 8));
                            assert(old_parts + (seq![part@] + inner.0) =~= views(reasoning_parts@) + inner.0);
                            assert(old_out + (segment@ + inner.1) =~= out@ + inner.1);
                        }
                        pos = end + 8;
                    },
                    None => {
                        let tail = string_of_range(&cs, pos, cs.len());
                        out.append(tail.as_str());
                        unclosed = true;
                        proof {
                            assert(rest =~= cs@.subrange(pos as int, cs@.len() as int));
                            assert(views(reasoning_parts@) + Seq::<Seq<char>>::empty() =~= views(reasoning_parts@));
                        }
                        break;
                    },
                }
            },
        }
    }
    let reasoning = if reasoning_parts.len() == 0 {
        None
    } else {
        Some(join_strings(&reasoning_parts, "\n\n"))
    };
    proof {
        reveal_strlit("\n\n");
        assert("\n\n"@ =~= seq!['\n', '\n']);
    }
    let answer = if reasoning_parts.len() == 0 || unclosed {
        out
    } else {
        trim_start_str(out.as_str())
    };
    (reasoning, answer)
}

/// The observable state of a `Response`.
pub struct ResponseView {
    pub text: Seq<char>,
    pub reasoning: Option<Seq<char>>,
    pub answer: Seq<char>,
    pub finish_reason: FinishReason,
    pub tokens_generated: u32,
}

/// Result of a chat completion.
pub struct Response {
    text: String,
    reasoning: Option<String>,
    answer: String,
    finish_reason: FinishReason,
    tokens_generated: u32,
}

/// The view of an optional string.
pub open spec fn opt_view(s: Option<String>) -> Option<Seq<char>> {
    match s {
        Some(t) => Some(t@),
        None => None,
    }
}

impl View for Response {
    type V = ResponseView;

    closed spec fn view(&self) -> ResponseView {
        ResponseView {
            text: self.text@,
            reasoning: opt_view(self.reasoning),
            answer: self.answer@,
            finish_reason: self.finish_reason,
            tokens_generated: self.tokens_generated,
        }
    }
}

impl Response {
    /// The reasoning and answer always come from the text.
    #[verifier::type_invariant]
    closed spec fn split_from_text(self) -> bool {
        split_thinking_spec(self.text@) == (opt_view(self.reasoning), self.answer@)
    }

    /// Direct construction is refused: responses come from `Model::chat()`.
    pub fn __construct() -> (r: Result<Self, InferError>)
        ensures
            r matches Err(e) && is_construction_error(e,
                "Displace\\Infer\\Response is produced by Model::chat(); do not instantiate directly"@),
    {
        Err(construction_error("Displace\\Infer\\Response is produced by Model::chat(); do not instantiate directly"))
    }

    /// Builds a `Response` from raw inference output, splitting the reasoning
    /// from the answer once.
    pub fn new(text: String, finish_reason: FinishReason, tokens_generated: u32) -> (r: Self)
        ensures
            r@.text == text@,
            (r@.reasoning, r@.answer) == split_thinking_spec(text@),
            r@.finish_reason == finish_reason,
            r@.tokens_generated == tokens_generated,
    {
        let (reasoning, answer) = split_thinking(text.as_str());
        Response { text, reasoning, answer, finish_reason, tokens_generated }
    }

    /// The full text the model emitted, including any `<think>` blocks.
    pub fn text(&self) -> (r: String)
        ensures
            r@ == self@.text,
    {
        self.text.clone()
    }

    /// The contents of the `<think>` blocks joined by a blank line, or
    /// `None` when the output had no complete block.
    pub fn reasoning(&self) -> (r: Option<String>)
        ensures
            opt_view(r) == self@.reasoning,
            opt_view(r) == split_thinking_spec(self@.text).0,
    {
        proof {
            use_type_invariant(self);
        }
        match &self.reasoning {
            Some(s) => Some(s.clone()),
            None => None,
        }
    }

    /// The text without the `<think>` blocks (leading white space trimmed
    /// when one was removed).
    pub fn answer(&self) -> (r: String)
        ensures
            r@ == self@.answer,
            r@ == split_thinking_spec(self@.text).1,
            self@.reasoning is None ==> r@ == self@.text,
    {
        proof {
            use_type_invariant(self);
            lemma_no_reasoning_keeps_text(self@.text);
        }
        self.answer.clone()
    }

    /// Whether the output held a complete `<think>` block.
    pub fn has_reasoning(&self) -> (r: bool)
        ensures
            r == self@.reasoning is Some,
            r == split_thinking_spec(self@.text).0 is Some,
    {
        proof {
            use_type_invariant(self);
        }
        self.reasoning.is_some()
    }

    /// Why generation stopped: `"eos"`, `"length"` or `"stop"`.
    pub fn finish_reason(&self) -> (r: String)
        ensures
            r@ == finish_reason_text(self@.finish_reason),
    {
        String::from_str(self.finish_reason.as_str())
    }

    /// Number of tokens the model generated.
    pub fn tokens_generated(&self) -> (r: u32)
        ensures
            r == self@.tokens_generated,
    {
        self.tokens_generated
    }
}

} // verus!
