//! Logic of a desktop assistant that gathers conversations and issues for triage,
//! runs local models and keeps their files in order.
//!
//! Every module states its behaviour in contracts over mathematical models; the
//! host around it performs the I/O that these functions decide on.
pub mod text;
pub mod pieces;
pub mod numbers;
pub mod assoc;
pub mod slash_commands;
pub mod order;
pub mod paths;
pub mod local_llm;
pub mod downloads;
pub mod digest;
pub mod json;
pub mod time;
pub mod triage;
pub mod records;
pub mod toml_tree;
pub mod codex_config;
pub mod codex_provider_env;
pub mod sidecar_host;
pub mod commands;
pub mod path_utils;
pub mod lark;
pub mod unicode;
pub mod utf8;
