//! The node store: what the engine computes over document nodes that the
//! host has read from the relational store.
pub mod order;
pub mod nodes;
