# stk

`stk` renders the output of development commands (cargo, git, and anything else) within a
token budget before it reaches an LLM agent's context: it scores lines, keeps what matters
(errors, locations, changed hunks), collapses repetition and boilerplate, and truncates the
rest, with native filters for files, streams and JSON, usage tracking, and a savings report.

The library in `src/` holds that logic and is verified with Verus: every public function
carries a `requires`/`ensures` contract, and the properties that span functions (what the
budget selection always keeps, that normalisation is idempotent, that a history line reads
back as written, that installing the agent instructions twice changes nothing, which config
layer wins) are stated and proved as public proof functions.

Layout:

- `src/` -- the verified library: the chunk model, scoring, normalisation, aggregation, the
  budget tokenizer and selector, the Cargo and Git specialists, the fast path, the history
  format, config resolution, and one module per verb under `src/verbs/`.
- `app/` -- the binary: argument handling, the process's stdio, spawning child processes and
  forwarding signals to them, the history file, walking directories, and printing the
  savings report's percentages.
- `tests/` -- tests run against the compiled library.

Calls into `toml` and `serde_json` stay in the library behind small trusted wrappers whose
contracts name what those crates return.
