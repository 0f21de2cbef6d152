# vibe_prompter

The decision logic of a desktop prompt launcher's chat engine, verified with Verus:
how the context window is split and degraded, how rolling memory is compressed and
merged with structured facts, how tool calls are read out of model output in several
wire formats, how tool results are fed back, and how an autonomous plan is run step by
step.

- `src/` — the verified library. Every function carries a `requires`/`ensures`
  contract over spec functions and views; public `law_*` proof functions state
  properties that span several functions. Calls into serde_json, sha2 and base64 go
  through small trusted wrappers whose contracts say what those crates document.
- `tests/` — ordinary Rust tests over the library.
- `app/` — a small command-line front end and the drivers that perform I/O and model
  calls around the library's state machines (tool loop, autonomous run, memory
  compression).
