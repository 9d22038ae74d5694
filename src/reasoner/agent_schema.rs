//! The step vocabulary offered to the model planner and the run phase each
//! step belongs to.
use vstd::prelude::*;

verus! {

/// The phases a run passes through, as persisted with the run.
#[derive(Debug, Clone, Copy, PartialEq, Eq, Structural)]
pub enum RunPhase {
    Retrieval,
    Synthesis,
    Validation,
    Completed,
}

impl RunPhase {
    pub fn as_str(&self) -> (r: &'static str)
        ensures
            r@ == match *self {
                RunPhase::Retrieval => "retrieval"@,
                RunPhase::Synthesis => "synthesis"@,
                RunPhase::Validation => "validation"@,
                RunPhase::Completed => "completed"@,
            },
    {
        match self {
            RunPhase::Retrieval => "retrieval",
            RunPhase::Synthesis => "synthesis",
            RunPhase::Validation => "validation",
            RunPhase::Completed => "completed",
        }
    }
}

/// The step kinds the model planner may name.
#[derive(Debug, Clone, Copy, PartialEq, Eq, Structural)]
pub enum AgentStepType {
    Search,
    Inspect,
    Synthesize,
    SelfCheck,
    Finish,
}

/// The phase of each agent step kind.
pub open spec fn agent_phase(t: AgentStepType) -> RunPhase {
    match t {
        AgentStepType::Search | AgentStepType::Inspect => RunPhase::Retrieval,
        AgentStepType::Synthesize => RunPhase::Synthesis,
        AgentStepType::SelfCheck => RunPhase::Validation,
        AgentStepType::Finish => RunPhase::Completed,
    }
}

/// A step as the model planner describes it.
#[derive(Debug, Clone)]
pub struct AgentPlannedStep {
    pub step_type: AgentStepType,
    pub objective: String,
    pub reasoning: String,
    pub stop: bool,
}

impl AgentPlannedStep {
    pub fn phase(&self) -> (r: RunPhase)
        ensures
            r == agent_phase(self.step_type),
    {
        match self.step_type {
            AgentStepType::Search | AgentStepType::Inspect => RunPhase::Retrieval,
            AgentStepType::Synthesize => RunPhase::Synthesis,
            AgentStepType::SelfCheck => RunPhase::Validation,
            AgentStepType::Finish => RunPhase::Completed,
        }
    }
}

} // verus!
