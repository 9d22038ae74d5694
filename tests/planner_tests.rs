use vectorless_lib::reasoner::planner::{
    Planner, PlannerConfig, PlannerDecision, PlannerInput, StepType,
};

#[test]
fn planner_emits_default_reasoning_sequence() {
    let planner = Planner::new(PlannerConfig::default());
    let input = PlannerInput {
        query: "What are the limitations of this approach?".to_string(),
        last_confidence: None,
        explored_sections: vec![],
        has_evidence: false,
        step_count: 0,
        backtrack_count: 0,
    };

    let plan = planner.next_steps(&input);
    let kinds: Vec<StepType> = plan.steps.iter().map(|item| item.step_type.clone()).collect();

    assert_eq!(
        kinds,
        vec![
            StepType::ScanRoot,
            StepType::SelectSections,
            StepType::DrillDown,
            StepType::ExtractEvidence,
            StepType::Synthesize,
            StepType::SelfCheck,
        ]
    );
}

#[test]
fn planner_backtracks_when_confidence_is_low() {
    let planner = Planner::new(PlannerConfig::default());
    let input = PlannerInput {
        query: "Find the read latency limit".to_string(),
        last_confidence: Some(420_000),
        explored_sections: vec!["2.0 Overview".to_string()],
        has_evidence: true,
        step_count: 5,
        backtrack_count: 0,
    };

    let plan = planner.next_steps(&input);

    assert_eq!(plan.decision, PlannerDecision::Backtrack);
    assert!(plan
        .steps
        .iter()
        .any(|step| step.step_type == StepType::SelectSections));
}

#[test]
fn planner_stops_after_max_steps() {
    let planner = Planner::new(PlannerConfig {
        max_steps: 6,
        max_backtracks: 2,
        confidence_threshold: 700_000,
    });

    let input = PlannerInput {
        query: "Any query".to_string(),
        last_confidence: Some(200_000),
        explored_sections: vec![],
        has_evidence: false,
        step_count: 6,
        backtrack_count: 0,
    };

    let plan = planner.next_steps(&input);

    assert_eq!(plan.decision, PlannerDecision::Stop);
    assert!(plan.steps.is_empty());
}

#[test]
fn planner_with_evidence_synthesizes_then_checks() {
    let planner = Planner::new(PlannerConfig::default());
    let input = PlannerInput {
        query: "What is the latency?".to_string(),
        last_confidence: Some(720_000),
        explored_sections: vec![],
        has_evidence: true,
        step_count: 4,
        backtrack_count: 0,
    };
    let plan = planner.next_steps(&input);
    assert_eq!(plan.decision, PlannerDecision::Continue);
    let kinds: Vec<StepType> = plan.steps.iter().map(|s| s.step_type).collect();
    assert_eq!(kinds, vec![StepType::Synthesize, StepType::SelfCheck]);
}

#[test]
fn planner_backtrack_block_and_query_in_objective() {
    let planner = Planner::new(PlannerConfig::default());
    let input = PlannerInput {
        query: "latency".to_string(),
        last_confidence: Some(280_000),
        explored_sections: vec![],
        has_evidence: true,
        step_count: 2,
        backtrack_count: 1,
    };
    let plan = planner.next_steps(&input);
    assert_eq!(plan.decision, PlannerDecision::Backtrack);
    let kinds: Vec<StepType> = plan.steps.iter().map(|s| s.step_type).collect();
    assert_eq!(
        kinds,
        vec![
            StepType::SelectSections,
            StepType::DrillDown,
            StepType::ExtractEvidence,
            StepType::Synthesize,
            StepType::SelfCheck,
        ]
    );
    assert_eq!(
        plan.steps[0].objective,
        "Re-select sections for query 'latency' skipping explored branches"
    );
}

#[test]
fn planner_does_not_backtrack_past_the_limit() {
    let planner = Planner::new(PlannerConfig::default());
    let input = PlannerInput {
        query: "latency".to_string(),
        last_confidence: Some(280_000),
        explored_sections: vec!["Intro".to_string()],
        has_evidence: false,
        step_count: 2,
        backtrack_count: 2,
    };
    let plan = planner.next_steps(&input);
    assert_eq!(plan.decision, PlannerDecision::Continue);
    assert_eq!(plan.steps.len(), 6);
    assert_eq!(
        plan.steps[0].objective,
        "Scan root table-of-contents for broad candidates; avoid previously explored sections"
    );
}

#[test]
fn step_type_names() {
    assert_eq!(StepType::ScanRoot.as_str(), "scan_root");
    assert_eq!(StepType::SelectSections.as_str(), "select_sections");
    assert_eq!(StepType::DrillDown.as_str(), "drill_down");
    assert_eq!(StepType::ExtractEvidence.as_str(), "extract_evidence");
    assert_eq!(StepType::Synthesize.as_str(), "synthesize");
    assert_eq!(StepType::SelfCheck.as_str(), "self_check");
}
