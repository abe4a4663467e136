# axon

Verified core of a local-first coding agent, in Rust with Verus.

- `src/` is the library. Its functions state their behaviour in contracts, and
  Verus proves these, but for the calls into other crates: the contracts of the
  small functions marked `external_body`, and the specifications assumed of
  outside functions, are believed, not proved. Each says in its comment which
  outside function it stands for and what is claimed of it. Public proof
  functions state the laws that relate several functions.
- `app/` is ordinary Rust around the library: files, processes, the network,
  the terminal, async code, serde and clap, and floating point.
- `tests/` runs the library.

| module | what it holds |
| --- | --- |
| `auth` | the login that an operation needs |
| `code_graph` | code navigation from a symbol index, with a textual fallback |
| `decimal`, `text` | numerals and text |
| `hooks` | hook events and their payloads |
| `json`, `toml` | models of `serde_json` values and `toml_edit` documents |
| `local_setup` | detecting and configuring a local model server |
| `lsp_stub` | a minimal language server |
| `marketplace` | which marketplace source is official |
| `memory` | the `memory` command |
| `search` | content filter, merging, ageing and ranking of memory search |
| `symbols` | symbol captures from tree-sitter queries |
| `tail_repetition` | detection of degenerate repetition in model output |
