//! Token-saving text transforms, session metrics and configuration model
//! for an MCP proxy.
pub mod text;
pub mod compress;
pub mod metrics;
pub mod strmap;
pub mod json;
pub mod protocol;
pub mod error;
pub mod config;
pub mod stats_store;
pub mod clients;
pub mod status;
pub mod cmd_stats;
pub mod proxy;
pub mod cache;
pub mod checkpoint;
pub mod knowledge;
pub mod setup;
pub mod code_context;
