//! A file-backed store of memory records: the decisions behind upsert,
//! filtered load and delete, verified against models over sequences.
pub mod record;
pub mod order;
pub mod store;
pub mod document;
pub mod laws;
