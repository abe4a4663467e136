//! Verified core of a local-first coding agent.

pub mod auth;
pub mod code_graph;
pub mod decimal;
pub mod hooks;
pub mod json;
pub mod local_setup;
pub mod lsp_stub;
pub mod marketplace;
pub mod memory;
pub mod search;
pub mod symbols;
pub mod tail_repetition;
pub mod text;
pub mod toml;
