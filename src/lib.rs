//! A grounded question-answering engine over a hierarchical document store:
//! query scoping, planning, evidence selection, quality evaluation and the
//! run state machine, with the node-store and ingestion logic they rely on.
pub mod common;
pub mod export;
pub mod ingest;
pub mod providers;
pub mod reasoner;
pub mod security;
pub mod sidecar;
pub mod store;
pub mod text;
