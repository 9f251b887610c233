# basetenkenizer

A tokenizer front end in Verus: executable Rust whose behaviour is stated in
`requires` / `ensures` contracts and proved.

- `src/pre_tokenizers/` cuts text into pre-tokens. Four split patterns are known
  ahead of time and have hand-written scanners. `regex.rs` gives the patterns
  their meaning as a backtracking search; every scanner is proved to end its
  token where that search does, for all byte strings. `syntax.rs` ties the text
  of a pattern to its term, `laws.rs` says what holds of the tokens of a whole
  text, and `chunks.rs` what holds where it is cut for parallel scanning.
- `src/chat_template/` renders HuggingFace-style chat templates: the context, the
  `tojson` filter with the layout of Python's `json.dumps`, the rewriting of
  generation markers. `json_text.rs` says what the JSON text of a value is, and
  which texts say the same. The template engine, the JSON library and the clock
  are in `outside.rs`, with what is assumed of them.
- `src/chat_call/` looks at the arguments of an `apply_chat_template` call,
  prepares and renders it, and cuts the result where a message is continued.
- `src/encoding.rs` holds encodings, and the truncation and padding that bring
  them to a length.
- `src/post_processor.rs` reads the post-processor of a tokenizer.
- `src/text.rs` has searching, trimming and comparing of text.

`tests/` runs the library, the scanners against a regex engine among other
things. `app/` holds the Python bindings; the model stage, which turns pre-tokens
into ids, registers itself there.

Public proof functions whose names begin with `law_` state what holds of the
library as a whole.
