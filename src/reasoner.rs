//! The reasoning engine: scope classification, planning, evidence selection,
//! prompting, quality evaluation and the run state machine.
pub mod query_scope;
pub mod evaluator;
pub mod planner;
pub mod evidence;
pub mod prompts;
pub mod executor;
pub mod agent_schema;
