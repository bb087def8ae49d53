//! Rift integration bus: envelope schema, replay ring, stream classifiers,
//! session bookkeeping and the pure decision logic of the translators.

pub mod envelope;
pub mod text;
pub mod lane;
pub mod path;
pub mod commands;
pub mod bus;
pub mod config;
pub mod llm;
pub mod llm_providers;
pub mod llm_cli;
pub mod llm_process;
pub mod keyring;
pub mod vault;
pub mod session_logger;
pub mod json;
pub mod sorted;
pub mod yaml;
pub mod frontmatter;
pub mod session_compare;
pub mod gguf;
pub mod fs_events;
pub mod vault_watch;
pub mod timeline;
pub mod session_reader;
pub mod correlation;
pub mod compaction;
pub mod snapshot;
pub mod index;
pub mod enrichment;
pub mod status;
pub mod tail;
pub mod errors;
pub mod ipc;
pub mod mcp;
pub mod llm_wire;
