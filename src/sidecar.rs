//! The normalized document payload that ingestion produces.
pub mod types;
pub mod blocks;
