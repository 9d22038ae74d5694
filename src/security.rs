//! Where provider secrets are kept.
pub mod keyring;
