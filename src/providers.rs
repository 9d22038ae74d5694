//! The language-model provider: the shape of its planner step, its status
//! mapping and its cost estimate.
pub mod gemini;
