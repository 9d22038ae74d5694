//! The planner: a deterministic fallback that picks the next block of steps
//! from the run's state, and a strict adapter for a step the model proposed.
use vstd::prelude::*;

use crate::providers::gemini::GeminiPlannerStep;
use crate::text::{equals_str, lower_chars_of, lower_seq, trim, trimmed};

verus! {

#[derive(Debug, Clone, Copy, PartialEq, Eq, Structural)]
pub enum StepType {
    ScanRoot,
    SelectSections,
    DrillDown,
    ExtractEvidence,
    Synthesize,
    SelfCheck,
}

pub open spec fn step_type_text(t: StepType) -> Seq<char> {
    match t {
        StepType::ScanRoot => "scan_root"@,
        StepType::SelectSections => "select_sections"@,
        StepType::DrillDown => "drill_down"@,
        StepType::ExtractEvidence => "extract_evidence"@,
        StepType::Synthesize => "synthesize"@,
        StepType::SelfCheck => "self_check"@,
    }
}

impl StepType {
    pub fn as_str(&self) -> (r: &'static str)
        ensures
            r@ == step_type_text(*self),
    {
        match self {
            StepType::ScanRoot => "scan_root",
            StepType::SelectSections => "select_sections",
            StepType::DrillDown => "drill_down",
            StepType::ExtractEvidence => "extract_evidence",
            StepType::Synthesize => "synthesize",
            StepType::SelfCheck => "self_check",
        }
    }
}

#[derive(Debug, Clone, Copy, PartialEq, Eq, Structural)]
pub enum PlannerDecision {
    Continue,
    Backtrack,
    Stop,
}

/// Bounds of the planner; `confidence_threshold` is in millionths.
#[derive(Debug, Clone, Copy)]
pub struct PlannerConfig {
    pub max_steps: usize,
    pub max_backtracks: usize,
    pub confidence_threshold: u64,
}

impl Default for PlannerConfig {
    fn default() -> (r: PlannerConfig)
        ensures
            r.max_steps == 6,
            r.max_backtracks == 2,
            r.confidence_threshold == 700_000,
    {
        PlannerConfig { max_steps: 6, max_backtracks: 2, confidence_threshold: 700_000 }
    }
}

/// The state of a run as the planner sees it; `last_confidence` is in
/// millionths.
#[derive(Debug, Clone)]
pub struct PlannerInput {
    pub query: String,
    pub last_confidence: Option<u64>,
    pub explored_sections: Vec<String>,
    pub has_evidence: bool,
    pub step_count: usize,
    pub backtrack_count: usize,
}

#[derive(Debug, Clone)]
pub struct PlannedStep {
    pub step_type: StepType,
    pub objective: String,
}

#[derive(Debug, Clone)]
pub struct PlannedSequence {
    pub decision: PlannerDecision,
    pub steps: Vec<PlannedStep>,
}

#[derive(Debug, Clone, Copy)]
pub struct Planner {
    config: PlannerConfig,
}

pub open spec fn kinds(steps: Seq<PlannedStep>) -> Seq<StepType> {
    steps.map_values(|s: PlannedStep| s.step_type)
}

/// The block run after a backtrack: re-select, drill, extract, answer, check.
pub open spec fn revision_block() -> Seq<StepType> {
    seq![
        StepType::SelectSections,
        StepType::DrillDown,
        StepType::ExtractEvidence,
        StepType::Synthesize,
        StepType::SelfCheck,
    ]
}

/// The whole pipeline, from the root scan to the self check.
pub open spec fn full_pipeline() -> Seq<StepType> {
    seq![
        StepType::ScanRoot,
        StepType::SelectSections,
        StepType::DrillDown,
        StepType::ExtractEvidence,
        StepType::Synthesize,
        StepType::SelfCheck,
    ]
}

pub open spec fn low_confidence(cfg: PlannerConfig, input: PlannerInput) -> bool {
    match input.last_confidence {
        Some(c) => c < cfg.confidence_threshold && input.backtrack_count < cfg.max_backtracks,
        None => false,
    }
}

/// The deterministic plan: the decision and the kinds of its steps.
pub open spec fn fallback_plan(cfg: PlannerConfig, input: PlannerInput) -> (
    PlannerDecision,
    Seq<StepType>,
) {
    if input.step_count >= cfg.max_steps {
        (PlannerDecision::Stop, Seq::empty())
    } else if low_confidence(cfg, input) {
        (PlannerDecision::Backtrack, revision_block())
    } else if input.has_evidence {
        (PlannerDecision::Continue, seq![StepType::Synthesize, StepType::SelfCheck])
    } else {
        (PlannerDecision::Continue, full_pipeline())
    }
}

/// The decision that a model's word stands for, ignoring case and
/// surrounding whitespace; anything unknown continues.
pub open spec fn decision_named(raw: Seq<char>) -> PlannerDecision {
    let l = lower_seq(trim(raw));
    if l == "stop"@ || l == "finish"@ || l == "done"@ {
        PlannerDecision::Stop
    } else if l == "backtrack"@ || l == "revise"@ || l == "retry"@ {
        PlannerDecision::Backtrack
    } else {
        PlannerDecision::Continue
    }
}

/// The step kind that a model's word stands for, ignoring case and
/// surrounding whitespace.
pub open spec fn step_kind_named(raw: Seq<char>) -> Option<StepType> {
    let l = lower_seq(trim(raw));
    if l == "search"@ || l == "scan_root"@ {
        Some(StepType::ScanRoot)
    } else if l == "select_sections"@ {
        Some(StepType::SelectSections)
    } else if l == "inspect"@ || l == "drill_down"@ {
        Some(StepType::DrillDown)
    } else if l == "extract_evidence"@ {
        Some(StepType::ExtractEvidence)
    } else if l == "synthesize"@ {
        Some(StepType::Synthesize)
    } else if l == "self_check"@ || l == "validate"@ || l == "finish"@ {
        Some(StepType::SelfCheck)
    } else {
        None
    }
}

/// The steps that a valid model step of kind `k` expands to.
pub open spec fn expansion(k: StepType) -> Seq<StepType> {
    match k {
        StepType::ScanRoot => seq![StepType::ScanRoot, StepType::SelectSections],
        StepType::DrillDown => seq![StepType::DrillDown, StepType::ExtractEvidence],
        _ => seq![k],
    }
}

/// A model step is usable when its kind is known and its objective is not
/// blank.
pub open spec fn model_step_valid(step: GeminiPlannerStep) -> bool {
    step_kind_named(step.step_type@) is Some && trim(step.objective@).len() > 0
}

/// The plan adapted from a model step, or `None` when the step is rejected.
pub open spec fn model_plan(
    cfg: PlannerConfig,
    input: PlannerInput,
    step: GeminiPlannerStep,
) -> Option<(PlannerDecision, Seq<StepType>)> {
    if input.step_count >= cfg.max_steps {
        Some((PlannerDecision::Stop, Seq::empty()))
    } else if !model_step_valid(step) {
        None
    } else {
        let d = decision_named(step.decision@);
        if d == PlannerDecision::Stop {
            if input.has_evidence {
                Some((PlannerDecision::Stop, Seq::empty()))
            } else {
                Some((PlannerDecision::Continue, seq![StepType::ScanRoot, StepType::SelectSections]))
            }
        } else if d == PlannerDecision::Backtrack {
            Some((PlannerDecision::Backtrack, revision_block()))
        } else {
            Some(
                (PlannerDecision::Continue, expansion(step_kind_named(step.step_type@).unwrap())),
            )
        }
    }
}

fn planned(step_type: StepType, objective: &str) -> (r: PlannedStep)
    ensures
        r.step_type == step_type,
        r.objective@ == objective@,
{
    PlannedStep { step_type, objective: String::from_str(objective) }
}

fn revision_steps(first_objective: String, second: &str, third: &str, fourth: &str, fifth: &str) -> (r: Vec<PlannedStep>)
    ensures
        kinds(r@) == revision_block(),
        r@[0].objective@ == first_objective@,
{
    let mut v: Vec<PlannedStep> = Vec::new();
    v.push(PlannedStep { step_type: StepType::SelectSections, objective: first_objective });
    v.push(planned(StepType::DrillDown, second));
    v.push(planned(StepType::ExtractEvidence, third));
    v.push(planned(StepType::Synthesize, fourth));
    v.push(planned(StepType::SelfCheck, fifth));
    assert(kinds(v@) =~= revision_block());
    v
}

/// The decision named by the model, see `decision_named`.
pub fn parse_decision(raw: &str) -> (r: PlannerDecision)
    ensures
        r == decision_named(raw@),
{
    let t = trimmed(raw);
    let l = lower_chars_of(t.as_str());
    if equals_str(&l, "stop") || equals_str(&l, "finish") || equals_str(&l, "done") {
        PlannerDecision::Stop
    } else if equals_str(&l, "backtrack") || equals_str(&l, "revise") || equals_str(&l, "retry") {
        PlannerDecision::Backtrack
    } else {
        PlannerDecision::Continue
    }
}

/// The step kind named by the model, see `step_kind_named`.
pub fn parse_step_kind(raw: &str) -> (r: Option<StepType>)
    ensures
        r == step_kind_named(raw@),
{
    let t = trimmed(raw);
    let l = lower_chars_of(t.as_str());
    if equals_str(&l, "search") || equals_str(&l, "scan_root") {
        Some(StepType::ScanRoot)
    } else if equals_str(&l, "select_sections") {
        Some(StepType::SelectSections)
    } else if equals_str(&l, "inspect") || equals_str(&l, "drill_down") {
        Some(StepType::DrillDown)
    } else if equals_str(&l, "extract_evidence") {
        Some(StepType::ExtractEvidence)
    } else if equals_str(&l, "synthesize") {
        Some(StepType::Synthesize)
    } else if equals_str(&l, "self_check") || equals_str(&l, "validate") || equals_str(
        &l,
        "finish",
    ) {
        Some(StepType::SelfCheck)
    } else {
        None
    }
}

impl Planner {
    pub closed spec fn config_spec(&self) -> PlannerConfig {
        self.config
    }

    pub fn new(config: PlannerConfig) -> (r: Planner)
        ensures
            r.config_spec() == config,
    {
        Planner { config }
    }

    /// The deterministic plan for the state `input`. A backtrack names the
    /// query in its first objective; the full pipeline notes explored
    /// sections in its first.
    pub fn next_steps(&self, input: &PlannerInput) -> (r: PlannedSequence)
        ensures
            (r.decision, kinds(r.steps@)) == fallback_plan(self.config_spec(), *input),
            r.decision == PlannerDecision::Backtrack ==> r.steps@[0].objective@
                == "Re-select sections for query '"@ + input.query@
                + "' skipping explored branches"@,
            kinds(r.steps@) == full_pipeline() ==> r.steps@[0].objective@ == if input.explored_sections@.len()
                > 0 {
                "Scan root table-of-contents for broad candidates"@
                    + "; avoid previously explored sections"@
            } else {
                "Scan root table-of-contents for broad candidates"@
            },
    {
        if input.step_count >= self.config.max_steps {
            let steps: Vec<PlannedStep> = Vec::new();
            assert(kinds(steps@) =~= Seq::<StepType>::empty());
            return PlannedSequence { decision: PlannerDecision::Stop, steps };
        }
        if let Some(confidence) = input.last_confidence {
            if confidence < self.config.confidence_threshold && input.backtrack_count
                < self.config.max_backtracks {
                let mut first = String::from_str("Re-select sections for query '");
                first.append(input.query.as_str());
                first.append("' skipping explored branches");
                let steps = revision_steps(
                    first,
                    "Drill into candidate subsections",
                    "Extract stronger evidence nodes",
                    "Synthesize revised answer",
                    "Estimate grounded confidence",
                );
                return PlannedSequence { decision: PlannerDecision::Backtrack, steps };
            }
        }
        if input.has_evidence {
            let mut steps: Vec<PlannedStep> = Vec::new();
            steps.push(planned(StepType::Synthesize, "Build answer from evidence"));
            steps.push(planned(StepType::SelfCheck, "Check grounding and confidence"));
            assert(kinds(steps@) =~= seq![StepType::Synthesize, StepType::SelfCheck]);
            return PlannedSequence { decision: PlannerDecision::Continue, steps };
        }
        let mut objective = String::from_str("Scan root table-of-contents for broad candidates");
        if input.explored_sections.len() > 0 {
            objective.append("; avoid previously explored sections");
        }
        let mut steps: Vec<PlannedStep> = Vec::new();
        steps.push(PlannedStep { step_type: StepType::ScanRoot, objective });
        steps.push(planned(StepType::SelectSections, "Select sections relevant to user query"));
        steps.push(planned(StepType::DrillDown, "Navigate into subsections and atomic nodes"));
        steps.push(planned(StepType::ExtractEvidence, "Extract claim/table/equation evidence"));
        steps.push(planned(StepType::Synthesize, "Synthesize grounded answer"));
        steps.push(
            planned(StepType::SelfCheck, "Measure confidence and decide if re-traversal is needed"),
        );
        assert(kinds(steps@) =~= full_pipeline());
        PlannedSequence { decision: PlannerDecision::Continue, steps }
    }

    /// The plan adapted from the model's step, or `None` when the step is
    /// rejected and the caller should fall back to `next_steps`. The first
    /// step of an adapted kind carries the model's objective.
    pub fn next_steps_from_model(&self, input: &PlannerInput, model_step: &GeminiPlannerStep) -> (r:
        Option<PlannedSequence>)
        ensures
            match model_plan(self.config_spec(), *input, *model_step) {
                Some(p) => r is Some && (r->0.decision, kinds(r->0.steps@)) == p,
                None => r is None,
            },
            r is Some && r->0.decision == PlannerDecision::Continue && input.step_count
                < self.config_spec().max_steps && decision_named(model_step.decision@)
                == PlannerDecision::Continue ==> r->0.steps@[0].objective@ == model_step.objective@,
    {
        if input.step_count >= self.config.max_steps {
            let steps: Vec<PlannedStep> = Vec::new();
            assert(kinds(steps@) =~= Seq::<StepType>::empty());
            return Some(PlannedSequence { decision: PlannerDecision::Stop, steps });
        }
        let kind = match parse_step_kind(model_step.step_type.as_str()) {
            Some(k) => k,
            None => return None,
        };
        let objective_trimmed = trimmed(model_step.objective.as_str());
        if objective_trimmed.as_str().unicode_len() == 0 {
            return None;
        }
        let decision = parse_decision(model_step.decision.as_str());
        if decision == PlannerDecision::Stop {
            if !input.has_evidence {
                let mut steps: Vec<PlannedStep> = Vec::new();
                steps.push(planned(StepType::ScanRoot, "Need evidence before finishing"));
                steps.push(planned(StepType::SelectSections, "Find relevant candidate sections"));
                assert(kinds(steps@) =~= seq![StepType::ScanRoot, StepType::SelectSections]);
                return Some(PlannedSequence { decision: PlannerDecision::Continue, steps });
            }
            let steps: Vec<PlannedStep> = Vec::new();
            assert(kinds(steps@) =~= Seq::<StepType>::empty());
            return Some(PlannedSequence { decision: PlannerDecision::Stop, steps });
        }
        if decision == PlannerDecision::Backtrack {
            let steps = revision_steps(
                model_step.objective.clone(),
                "Re-check alternate branches",
                "Collect stronger supporting evidence",
                "Regenerate answer from revised evidence",
                "Validate revised answer quality",
            );
            return Some(PlannedSequence { decision: PlannerDecision::Backtrack, steps });
        }
        let mut steps: Vec<PlannedStep> = Vec::new();
        let objective = model_step.objective.clone();
        match kind {
            StepType::ScanRoot => {
                steps.push(PlannedStep { step_type: StepType::ScanRoot, objective });
                steps.push(planned(StepType::SelectSections, "Select high-signal sections"));
            },
            StepType::DrillDown => {
                steps.push(PlannedStep { step_type: StepType::DrillDown, objective });
                steps.push(planned(StepType::ExtractEvidence, "Extract concrete supporting claims"));
            },
            _ => {
                steps.push(PlannedStep { step_type: kind, objective });
            },
        }
        assert(kinds(steps@) =~= expansion(kind));
        Some(PlannedSequence { decision: PlannerDecision::Continue, steps })
    }
}

} // verus!
