//! Hybrid-search core for a local-first memory store.
//!
//! Documents (text plus optional dense embedding) are persisted in a durable
//! document table, kept in sync with a full-text index and an
//! approximate-nearest-neighbor vector index through a task queue, and served
//! through a hybrid query path that fuses lexical and semantic relevance.

pub mod clock;
pub mod engine;
pub mod embedding;
pub mod fuse;
pub mod score;
pub mod store;
pub mod text_index;
pub mod vector_index;
