# matsux-term

A desktop AI coding assistant: the user picks files of a repository as
context, writes an instruction, and a language model answers with whole-file
edits that are written, compiled (Rust sources) and committed. A side panel
runs cargo commands and edits `rust-toolchain.toml`; another holds the API
settings of OpenAI-compatible providers.

## Layout

- `src/` — the library, verified with Verus:
  - `app_state.rs` — the window's state and how messages from the background
    tasks and the user's actions change it;
  - `aider.rs` — the edit workflow as a state machine: from each outside
    event to the messages for the window and the next action;
  - `cargo.rs` — `rust-toolchain.toml`, `rustup toolchain list` output, and a
    cargo run as a state machine;
  - `kb.rs` — the local knowledge base: file names and ranking of examples;
  - `activity_log.rs` — the activity log, its Markdown rows and the summary
    given to the model;
  - `files.rs` — which files the file browser lists, and their order;
  - `config.rs` — settings and provider presets;
  - `text.rs` — character-level text handling shared by the rest.
- `app/` — the program around the library: the egui window, file and process
  I/O, the model client, git, and the async tasks that drive the state
  machines.
- `tests/` — tests of the library on concrete values.
