use vectorless_lib::{
    providers::gemini::GeminiPlannerStep,
    reasoner::planner::{
        parse_decision, parse_step_kind, Planner, PlannerConfig, PlannerDecision, PlannerInput,
        StepType,
    },
};

fn input() -> PlannerInput {
    PlannerInput {
        query: "How are these files related?".to_string(),
        last_confidence: Some(410_000),
        explored_sections: vec![],
        has_evidence: false,
        step_count: 1,
        backtrack_count: 0,
    }
}

fn input_with_evidence(has_evidence: bool) -> PlannerInput {
    PlannerInput {
        query: "How are these files related?".to_string(),
        last_confidence: Some(410_000),
        explored_sections: vec![],
        has_evidence,
        step_count: 1,
        backtrack_count: 0,
    }
}

fn model_step(step_type: &str, objective: &str, decision: &str) -> GeminiPlannerStep {
    GeminiPlannerStep {
        step_type: step_type.to_string(),
        objective: objective.to_string(),
        reasoning: "r".to_string(),
        decision: decision.to_string(),
    }
}

#[test]
fn model_plan_maps_search_to_retrieval_steps() {
    let planner = Planner::new(PlannerConfig::default());
    let model_step = GeminiPlannerStep {
        step_type: "search".to_string(),
        objective: "Find candidate sections across files".to_string(),
        reasoning: "Need broad context first".to_string(),
        decision: "continue".to_string(),
    };

    let plan = planner
        .next_steps_from_model(&input(), &model_step)
        .expect("valid model plan");

    assert_eq!(plan.decision, PlannerDecision::Continue);
    assert!(plan
        .steps
        .iter()
        .any(|step| step.step_type == StepType::ScanRoot));
    assert!(plan
        .steps
        .iter()
        .any(|step| step.step_type == StepType::SelectSections));
}

#[test]
fn invalid_model_step_is_rejected() {
    let planner = Planner::new(PlannerConfig::default());
    let model_step = GeminiPlannerStep {
        step_type: "nonsense".to_string(),
        objective: "Unknown".to_string(),
        reasoning: "Unknown".to_string(),
        decision: "continue".to_string(),
    };

    assert!(planner
        .next_steps_from_model(&input(), &model_step)
        .is_none());
}

#[test]
fn finish_decision_stops_sequence() {
    let planner = Planner::new(PlannerConfig::default());
    let model_step = GeminiPlannerStep {
        step_type: "finish".to_string(),
        objective: "Stop now".to_string(),
        reasoning: "Answer quality is sufficient".to_string(),
        decision: "stop".to_string(),
    };

    let plan = planner
        .next_steps_from_model(&input_with_evidence(true), &model_step)
        .expect("valid finish plan");
    assert_eq!(plan.decision, PlannerDecision::Stop);
    assert!(plan.steps.is_empty());
}

#[test]
fn finish_without_evidence_falls_back_to_search() {
    let planner = Planner::new(PlannerConfig::default());
    let model_step = GeminiPlannerStep {
        step_type: "finish".to_string(),
        objective: "Stop now".to_string(),
        reasoning: "Done".to_string(),
        decision: "stop".to_string(),
    };

    let plan = planner
        .next_steps_from_model(&input_with_evidence(false), &model_step)
        .expect("fallback plan");

    assert_eq!(plan.decision, PlannerDecision::Continue);
    assert!(plan
        .steps
        .iter()
        .any(|step| step.step_type == StepType::ScanRoot));
}

#[test]
fn model_step_with_blank_objective_is_rejected() {
    let planner = Planner::new(PlannerConfig::default());
    assert!(planner
        .next_steps_from_model(&input(), &model_step("search", "   ", "continue"))
        .is_none());
}

#[test]
fn model_inspect_expands_to_drill_and_extract() {
    let planner = Planner::new(PlannerConfig::default());
    let plan = planner
        .next_steps_from_model(&input(), &model_step(" Inspect ", "Look closer", "continue"))
        .expect("valid");
    let kinds: Vec<StepType> = plan.steps.iter().map(|s| s.step_type).collect();
    assert_eq!(kinds, vec![StepType::DrillDown, StepType::ExtractEvidence]);
    assert_eq!(plan.steps[0].objective, "Look closer");
}

#[test]
fn model_backtrack_emits_revision_block() {
    let planner = Planner::new(PlannerConfig::default());
    let plan = planner
        .next_steps_from_model(&input(), &model_step("synthesize", "Retry", "REVISE"))
        .expect("valid");
    assert_eq!(plan.decision, PlannerDecision::Backtrack);
    let kinds: Vec<StepType> = plan.steps.iter().map(|s| s.step_type).collect();
    assert_eq!(
        kinds,
        vec![
            StepType::SelectSections,
            StepType::DrillDown,
            StepType::ExtractEvidence,
            StepType::Synthesize,
            StepType::SelfCheck,
        ]
    );
}

#[test]
fn model_plan_stops_at_step_limit() {
    let planner = Planner::new(PlannerConfig::default());
    let mut state = input();
    state.step_count = 6;
    let plan = planner
        .next_steps_from_model(&state, &model_step("search", "x", "continue"))
        .expect("stop plan");
    assert_eq!(plan.decision, PlannerDecision::Stop);
    assert!(plan.steps.is_empty());
}

#[test]
fn decision_and_kind_words() {
    assert_eq!(parse_decision(" Done "), PlannerDecision::Stop);
    assert_eq!(parse_decision("retry"), PlannerDecision::Backtrack);
    assert_eq!(parse_decision("whatever"), PlannerDecision::Continue);
    assert_eq!(parse_step_kind("validate"), Some(StepType::SelfCheck));
    assert_eq!(parse_step_kind("finish"), Some(StepType::SelfCheck));
    assert_eq!(parse_step_kind("SELECT_SECTIONS"), Some(StepType::SelectSections));
    assert_eq!(parse_step_kind("nonsense"), None);
}
