use vectorless_lib::{
    common::errors::AppError,
    common::types::{DocNodeSummary, NodeType},
    providers::gemini::{GeminiAnswer, GeminiPlannerStep},
    reasoner::evidence::pick_candidates,
    reasoner::executor::{
        choose_plan, dedupe_citations, effective_focus_document, normalize_citations, Completion,
        RunState,
    },
    reasoner::planner::{Planner, PlannerConfig, PlannerDecision, StepType},
};

fn node(id: &str, doc: &str, parent: Option<&str>, kind: NodeType, title: &str, text: &str, path: &str) -> DocNodeSummary {
    DocNodeSummary {
        id: id.to_string(),
        document_id: doc.to_string(),
        parent_id: parent.map(|p| p.to_string()),
        node_type: kind,
        title: title.to_string(),
        text: text.to_string(),
        ordinal_path: path.to_string(),
        page_start: Some(1),
        page_end: Some(1),
    }
}

fn latency_doc() -> Vec<DocNodeSummary> {
    vec![
        node("root-1", "doc-1", None, NodeType::Document, "Spec", "", "root"),
        node("sec-1", "doc-1", Some("root-1"), NodeType::Section, "Latency", "Latency dropped to 50ms p99.", "1"),
    ]
}

struct Trace {
    indices: Vec<usize>,
    kinds: Vec<StepType>,
    backtracks_seen: Vec<usize>,
    refs_seen: bool,
}

/// Drives a run the way the host does: the planner's model is absent or
/// gives `model_step`, the store answers every search with `ranked`, and the
/// model answers every synthesis with `answer`.
fn drive(
    query: &str,
    focus: Option<&str>,
    ranked: &[DocNodeSummary],
    shallow: &[DocNodeSummary],
    model_step: Option<GeminiPlannerStep>,
    answer: &GeminiAnswer,
    max_steps: Option<usize>,
) -> (Result<Completion, AppError>, Trace, RunState) {
    let focus = effective_focus_document(query, focus.map(|f| f.to_string()));
    let mut state = RunState::new(max_steps);
    let planner = Planner::new(PlannerConfig { max_steps: state.max_steps, ..PlannerConfig::default() });
    let mut trace = Trace { indices: vec![], kinds: vec![], backtracks_seen: vec![], refs_seen: false };
    while state.should_continue() {
        let input = state.planner_input(query);
        let plan = choose_plan(&planner, &input, model_step.as_ref());
        if !state.begin_plan(plan.decision) {
            break;
        }
        trace.backtracks_seen.push(state.backtrack_count);
        for planned in plan.steps {
            let idx = match state.begin_step() {
                Some(i) => i,
                None => break,
            };
            let candidates = |limit: usize| pick_candidates(ranked.to_vec(), shallow.to_vec(), focus.is_some(), limit);
            let record = match planned.step_type {
                StepType::ScanRoot => state.record_scan_root(&shallow.to_vec()),
                StepType::SelectSections => state.record_select_sections(&candidates(6)),
                StepType::DrillDown => state.record_drill_down(&candidates(12)),
                StepType::ExtractEvidence => state.record_extract_evidence(&candidates(8)),
                StepType::Synthesize => {
                    let prompt = state.synthesis_request(query);
                    match prompt {
                        Ok(_) => state.record_answer(answer),
                        Err(e) => return (Err(e), trace, state),
                    }
                }
                StepType::SelfCheck => state.record_self_check(),
            };
            trace.indices.push(idx);
            trace.kinds.push(planned.step_type);
            trace.refs_seen |= !record.node_refs.is_empty();
        }
    }
    let result = state.conclude(query, focus.is_none());
    (result, trace, state)
}

fn answer(text: &str, confidence: u64, citations: &[&str]) -> GeminiAnswer {
    GeminiAnswer {
        answer_markdown: text.to_string(),
        confidence,
        citations: citations.iter().map(|c| c.to_string()).collect(),
    }
}

#[test]
fn grounded_single_document_answer_completes() {
    let doc = latency_doc();
    let ranked = vec![doc[1].clone()];
    let reply = answer("Latency dropped to 50ms p99.", 820_000, &["sec-1"]);
    let (result, trace, _) = drive("What is the latency?", Some("doc-1"), &ranked, &doc, None, &reply, None);
    let done = result.expect("run completes");
    assert!(done.grounded);
    assert!(done.final_confidence >= 600_000);
    assert_eq!(done.citations, vec!["sec-1".to_string()]);
    assert_eq!(done.quality.overall, 1_000_000);
    assert!(done.final_confidence <= 1_000_000);
    assert!(done.final_confidence >= done.quality.overall);
    assert_eq!(trace.indices, vec![1, 2, 3, 4, 5, 6]);
    assert!(trace.refs_seen);
}

#[test]
fn quality_gate_vetoes_empty_synthesis() {
    let doc = latency_doc();
    let ranked = vec![doc[1].clone()];
    let reply = answer("", 500_000, &[]);
    let (result, _, state) = drive("Explain this file", Some("doc-1"), &ranked, &doc, None, &reply, None);
    match result {
        Err(AppError::QualityGateFailed(message)) => {
            assert!(message.starts_with("Insufficient answer quality ("));
            assert!(message.contains("% < 60%)"));
        }
        other => panic!("expected a quality gate failure, got {:?}", other.is_ok()),
    }
    assert_eq!(
        state.answer_markdown,
        "I could not produce a grounded answer from the available evidence."
    );
    assert_eq!(AppError::QualityGateFailed(String::new()).code(), "QUALITY_GATE_FAILED");
}

#[test]
fn relation_query_forces_project_scope() {
    let query = "Explain what these files are about and how they are related";
    assert_eq!(effective_focus_document(query, Some("doc-a".to_string())), None);
    let ranked = vec![
        node("a1", "doc-a", Some("ra"), NodeType::Section, "Files", "These files describe architecture.", "1"),
        node("a2", "doc-a", Some("ra"), NodeType::Section, "More", "Related files about architecture.", "2"),
        node("a3", "doc-a", Some("ra"), NodeType::Section, "Extra", "Files related again.", "3"),
        node("b1", "doc-b", Some("rb"), NodeType::Section, "Files", "These files describe experiments.", "1"),
    ];
    let reply = answer(
        "File A explains the architecture and file B the experiments; these files are related by a shared model.",
        900_000,
        &["a1", "a2", "a3", "b1"],
    );
    let (result, _, state) = drive(query, Some("doc-a"), &ranked, &ranked, None, &reply, None);
    let docs: Vec<&String> = state.evidence_doc_map.iter().map(|(_, d)| d).collect();
    assert!(docs.iter().any(|d| d.as_str() == "doc-a"));
    assert!(docs.iter().any(|d| d.as_str() == "doc-b"));
    let done = result.expect("relation answer passes");
    assert_eq!(done.quality.cross_document_coverage, 1_000_000);
    assert!(done.quality.overall >= 700_000);
}

#[test]
fn backtracks_twice_then_stops() {
    let doc = latency_doc();
    let ranked = vec![doc[1].clone()];
    // A short grounded answer with one evidence node self-checks at 0.33.
    let reply = answer("Latency dropped.", 500_000, &["sec-1"]);
    let (_, trace, state) = drive("What is the latency?", Some("doc-1"), &ranked, &doc, None, &reply, Some(40));
    assert_eq!(trace.backtracks_seen, vec![0, 1, 2]);
    assert_eq!(state.backtrack_count, 2);
    assert!(!state.should_continue());
    assert_eq!(trace.indices, (1..=16).collect::<Vec<usize>>());
}

#[test]
fn planner_timeout_falls_back_to_deterministic_plan() {
    let planner = Planner::new(PlannerConfig::default());
    let state = RunState::new(None);
    let plan = choose_plan(&planner, &state.planner_input("What is the latency?"), None);
    assert_eq!(plan.decision, PlannerDecision::Continue);
    assert_eq!(plan.steps.len(), 6);
}

#[test]
fn unparseable_model_step_uses_fallback_plan() {
    let planner = Planner::new(PlannerConfig::default());
    let state = RunState::new(None);
    let step = GeminiPlannerStep {
        step_type: "nonsense".to_string(),
        objective: "Unknown".to_string(),
        reasoning: String::new(),
        decision: "continue".to_string(),
    };
    let plan = choose_plan(&planner, &state.planner_input("What is the latency?"), Some(&step));
    let kinds: Vec<StepType> = plan.steps.iter().map(|s| s.step_type).collect();
    assert_eq!(
        kinds,
        vec![
            StepType::ScanRoot,
            StepType::SelectSections,
            StepType::DrillDown,
            StepType::ExtractEvidence,
            StepType::Synthesize,
            StepType::SelfCheck,
        ]
    );
}

#[test]
fn synthesis_without_evidence_is_not_found() {
    let state = RunState::new(None);
    match state.synthesis_request("q") {
        Err(AppError::NotFound(m)) => assert_eq!(m, "no evidence nodes found for query"),
        _ => panic!("expected NotFound"),
    }
}

#[test]
fn step_limit_is_at_least_two() {
    assert_eq!(RunState::new(Some(1)).max_steps, 2);
    assert_eq!(RunState::new(None).max_steps, 6);
    assert_eq!(RunState::new(Some(9)).max_steps, 9);
}

#[test]
fn dedupe_keeps_first_seen_order() {
    let input: Vec<String> = ["b", "a", "b", "c", "a"].iter().map(|s| s.to_string()).collect();
    assert_eq!(dedupe_citations(input), vec!["b".to_string(), "a".to_string(), "c".to_string()]);
    assert!(dedupe_citations(vec![]).is_empty());
}

#[test]
fn normalization_drops_unknown_citations() {
    let raw: Vec<String> = ["x", "n2", "n1"].iter().map(|s| s.to_string()).collect();
    let ev: Vec<String> = ["n1", "n2"].iter().map(|s| s.to_string()).collect();
    assert_eq!(normalize_citations(&raw, &ev), vec!["n2".to_string(), "n1".to_string()]);
}

#[test]
fn hallucinated_citations_fall_back_to_evidence() {
    let doc = latency_doc();
    let mut state = RunState::new(None);
    state.record_extract_evidence(&doc);
    let record = state.record_answer(&answer("  Latency is 50ms.  ", 1_500_000, &["made-up"]));
    assert_eq!(state.answer_markdown, "Latency is 50ms.");
    assert_eq!(state.citations, vec!["root-1".to_string(), "sec-1".to_string()]);
    assert_eq!(record.confidence, 1_000_000);
}
