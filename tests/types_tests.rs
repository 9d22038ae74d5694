use vectorless_lib::{
    common::types::{NodeType, Provider, RunStatus},
    reasoner::agent_schema::{AgentPlannedStep, AgentStepType, RunPhase},
    reasoner::executor::{is_answer_grounded, local_confidence_for_answer, phase_for_step},
    reasoner::planner::{PlannerInput, StepType},
    reasoner::prompts::{planner_prompt, synthesis_prompt},
    security::keyring::username_for_provider,
};

#[test]
fn node_type_names_round_trip() {
    assert_eq!(NodeType::from_str("Section"), NodeType::Section);
    assert_eq!(NodeType::from_str("TABLE"), NodeType::Table);
    assert_eq!(NodeType::from_str("whatever"), NodeType::Unknown);
    assert_eq!(NodeType::Equation.as_str(), "equation");
    assert_eq!(RunStatus::Failed.as_str(), "failed");
    assert_eq!(username_for_provider(&Provider::Gemini), "gemini");
}

#[test]
fn phases_of_steps() {
    assert_eq!(phase_for_step(&StepType::DrillDown), "retrieval");
    assert_eq!(phase_for_step(&StepType::Synthesize), "synthesis");
    assert_eq!(phase_for_step(&StepType::SelfCheck), "validation");
    let step = AgentPlannedStep {
        step_type: AgentStepType::Finish,
        objective: "done".to_string(),
        reasoning: String::new(),
        stop: true,
    };
    assert_eq!(step.phase(), RunPhase::Completed);
    assert_eq!(RunPhase::Retrieval.as_str(), "retrieval");
}

#[test]
fn grounding_and_self_check_confidence() {
    let cites = vec!["n1".to_string()];
    assert!(is_answer_grounded("Latency is 50ms.", &cites));
    assert!(!is_answer_grounded("   ", &cites));
    assert!(!is_answer_grounded("Latency is 50ms.", &vec![]));
    assert!(!is_answer_grounded("I COULD NOT PRODUCE A GROUNDED ANSWER here", &cites));
    assert_eq!(local_confidence_for_answer("short", 1), 330_000);
    assert_eq!(local_confidence_for_answer(&"y".repeat(121), 9), 750_000);
    assert_eq!(local_confidence_for_answer(" ", 3), 150_000);
}

#[test]
fn synthesis_prompt_numbers_evidence() {
    let p = synthesis_prompt("What is the latency?", &vec!["[citation:a] x".to_string(), "[citation:b] y".to_string()]);
    assert!(p.starts_with("You are a retrieval reasoner."));
    assert!(p.contains("USER QUERY:\nWhat is the latency?\n\nEVIDENCE:\n1. [citation:a] x\n2. [citation:b] y\n"));
    assert!(p.ends_with("{\"answer_markdown\":\"...\",\"confidence\":0.0,\"citations\":[\"node-id\"]}\n"));
}

#[test]
fn planner_prompt_shows_state() {
    let input = PlannerInput {
        query: "q".to_string(),
        last_confidence: Some(415_000),
        explored_sections: vec!["Intro".to_string()],
        has_evidence: true,
        step_count: 12,
        backtrack_count: 1,
    };
    let p = planner_prompt(&input);
    assert!(p.contains("query: q\nstepCount: 12\nbacktrackCount: 1\nhasEvidence: true\nlastConfidence: 0.42\nexploredSections:\n- Intro\n"));
    let none = PlannerInput { last_confidence: None, explored_sections: vec![], ..input };
    let bare = planner_prompt(&none);
    assert!(bare.contains("lastConfidence: none\n\nStrategy hints:"));
}
