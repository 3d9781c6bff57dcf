//! In-memory storage and full-text retrieval for a collectible-game catalog.
//!
//! The crate holds the indexed tables that give every entity a stable numeric
//! identity, the reverse-reference bookkeeping, the prefix-aware search index
//! and the rules by which a fresh snapshot is built and published.

pub mod assets;
pub mod db;
pub mod error;
pub mod lifecycle;
pub mod parser;
pub mod query;
pub mod text;
pub mod trusted;
pub mod types;
