# ext_infer

The verified core of a PHP extension for local LLM inference through
llama.cpp. `src/` is a Verus library; `app/` is the PHP-facing shell
(ext-php-rs classes, PHP value conversion, llama.cpp calls) around it.

Library modules:

- `grammar` — JSON Schema → GBNF compiler. The grammar for a schema is
  specified by `gbnf_document`; `json_schema_to_gbnf` is proved to produce
  exactly that text, or exactly the specified error message.
- `grammar_laws` — properties proved of every compilation: on success and
  on failure every earlier rule is kept and each rule name is defined once;
  a refusal raised by a node itself leaves the rules as they were; a
  node's rule is always the production it asked for (an identical rule of
  the same name is reused, a different one is refused); `required` and
  `additionalProperties: false` that pass, and `minItems: 0`, change
  nothing; `minItems` is refused exactly when it is not 0 or 1; `root` is defined exactly
  once; the first unsupported keyword is named in the error; and every
  string terminal is well formed and matches exactly the text it was built
  from.
- `json` — the JSON value model schemas are written in, the parse of JSON
  text into it (through `serde_json`), and compact JSON text.
- `prompt` — immutable chat prompts: `with*` returns the prompt plus one message.
- `response` — `<think>...</think>` reasoning split of model output.
- `model`, `rerank` — option validation, grammar selection (a schema as
  JSON text gets the same answer as the document it parses to), generation
  budget and stop reasons, size checks, the reranker's judgment prompt.
- `embedding` — dimension check and packed little-endian float32 layout.
- `error`, `text` — the error type and character-level helpers.

Floating-point work (sampling temperature, embedding math, rerank scores)
stays in `app/`.
