//! Error taxonomy and the data types shared across the engine.
pub mod errors;
pub mod types;
