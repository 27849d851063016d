# plainly

Explain a software engineering concept in plain language without losing accuracy:
a query goes through a short pipeline (resolve, explain, critique, ground) of
model calls, and the finished explanation is rendered for the terminal and cached.

This crate is written in Verus. `src/` is the library, with its contracts and proofs:

- `text` — specifications of trimming, joining and searching text, and the small
  string routines the rest uses.
- `model`, `error` — the request and explanation types, levels, and error messages.
- `cli` — the command line as data: line ranges, line slicing, flag decisions, and the
  request a command line asks for.
- `cache` — cache keys (SHA-256 over the request's key material), entry paths and names.
- `llm` — prompts, fence stripping of model replies, the scripted `MockLlm`, and the
  URL and status handling of the OpenAI-compatible provider.
- `pipeline` — the stages, the order they run in, each stage's prompt and merge of the
  model's answer, and `Pipeline::step`, which drives a run from request to explanation.
- `render` — the terminal layout of an explanation, with or without color.

`app/` is the binary: argument parsing, HTTP, the file system, JSON, and the async loop
that awaits each stage `Pipeline::step` names and hands its outcome back.
