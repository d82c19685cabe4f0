//! The verified core of codex-trace's backend.

pub mod text;
pub mod mentions;
pub mod jwt;
pub mod clients;
pub mod auth;
pub mod http_api;
pub mod settings;
pub mod session;
pub mod summary;
pub mod spawn;
pub mod scan_cache;
pub mod indexer;
pub mod state;
pub mod resolve;
