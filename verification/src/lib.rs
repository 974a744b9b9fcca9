//! Session indexing, configuration and pipeline planning for the `tx` launcher.

pub mod cli;
pub mod clock;
pub mod commands;
pub mod json;
pub mod launch;
pub mod laws;
pub mod paths;
pub mod session;
pub mod stats;
pub mod usage;
pub mod text;
pub mod config;
pub mod indexer;
pub mod internal;
pub mod pipeline;
pub mod prompts;
pub mod providers;
pub mod rag;
