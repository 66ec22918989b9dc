# helmor_triage

The logic of a desktop assistant that gathers conversations and issues for triage, runs
local models and keeps their files in order, written in Verus: every function of `src/`
states in its contract what it returns or changes, and Verus proves it.

- `src/slash_commands.rs`: the two-tier cache of slash commands.
- `src/downloads/`: the registry of downloads, the course of a download and the transfer of
  one file.
- `src/local_llm/`: the catalog of models, the reader of their metadata, and the server that
  runs them.
- `src/triage/`: candidates and their rows, conversations and their files, GitLab items,
  attachments, priming, ticks and the making of workspaces.
- `src/lark/`, `src/sidecar_host/`, `src/commands/`, `src/codex_config.rs`,
  `src/codex_provider_env.rs`, `src/path_utils.rs`: the smaller parts.
- `src/text.rs`, `src/pieces.rs`, `src/numbers.rs`, `src/order.rs`, `src/paths.rs`,
  `src/assoc.rs`, `src/json.rs`, `src/toml_tree.rs`, `src/time.rs`, `src/digest.rs`,
  `src/unicode.rs`, `src/utf8.rs`, `src/records.rs`: what they are built from.
- `tests/`: the library at work, with the real outside crates.
- `app/`: the host that performs the I/O which the library decides on.

What relates several functions stands in each module under "Laws", as public proof
functions named `law_...`.

What comes from outside crates (SHA-256, JSON, TOML, base64, calendar times) and from parts
of `std` that Verus does not know is reached through small trusted functions. Each names the
outside function and says what is believed of it.
