//! # crossref-rs
//!
//! Crossref literature metadata and BibTeX management: citation keys, key
//! conflict resolution, BibTeX records and append planning, configuration
//! priority, cache file naming and the client's request decisions. Each
//! function states what it returns in its `ensures` clauses, and the laws
//! that relate the functions stand as public proof functions.

pub mod bibtex;
pub mod cache;
pub mod client;
pub mod config;
pub mod error;
pub mod models;
pub mod output;
pub mod plugin;
pub mod text;
pub mod utils;

// Convenience re-exports for downstream crates and binaries
pub use config::Config;
pub use error::{CrossrefError, Result};
pub use models::{BibRecord, SearchQuery, SearchResult, WorkMeta};
pub use utils::KeyStyle;
