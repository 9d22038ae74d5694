//! The run state machine. The host performs every outside action (store
//! reads, model calls, persistence, events) and hands the results to a
//! `RunState`, which makes every decision of the loop: when to plan, what a
//! step changes, when to stop, and whether the answer passes the quality gate.
use vstd::prelude::*;

use crate::common::errors::AppError;
use crate::common::types::{DocNodeSummary, QualityMetrics, SCALE};
use crate::providers::gemini::{GeminiAnswer, GeminiPlannerStep};
use crate::reasoner::evaluator::{evaluate_answer, in_evidence, links_view, quality};
use crate::reasoner::evidence::{snippet_for, snippet_text};
use crate::reasoner::planner::{
    fallback_plan, kinds, model_plan, PlannedSequence, Planner, PlannerDecision, PlannerInput,
    StepType,
};
use crate::reasoner::prompts::{synthesis_prompt, synthesis_text};
use crate::reasoner::query_scope::{project_scope, requires_project_scope};
use crate::text::{
    contains_str, decimal, has_sub, lower_chars_of, lower_seq, push_decimal, trim, trimmed,
};

verus! {

broadcast use vstd::seq_lib::group_filter_ensures;

/// Quality an ordinary answer must reach, in millionths.
pub const MIN_QUALITY_SCORE: u64 = 600_000;

/// Quality an answer to a relation query must reach, in millionths.
pub const MIN_RELATION_QUALITY_SCORE: u64 = 700_000;

/// Confidence at which the loop stops, in millionths.
pub const DONE_CONFIDENCE: u64 = 700_000;

/// Backtracks after which the loop stops.
pub const MAX_RUN_BACKTRACKS: usize = 2;

/// The step limit of a run: the caller's, six by default, never under two.
pub open spec fn step_limit(requested: Option<usize>) -> nat {
    let n: nat = match requested {
        Some(n) => n as nat,
        None => 6,
    };
    if n < 2 {
        2
    } else {
        n
    }
}

/// The focus document in effect: none when the query needs the whole
/// project, else the caller's.
pub open spec fn effective_focus(query: Seq<char>, focus: Option<Seq<char>>) -> Option<Seq<char>> {
    if project_scope(query) {
        None
    } else {
        focus
    }
}

pub open spec fn sentinel() -> Seq<char> {
    "could not produce a grounded answer"@
}

pub open spec fn empty_answer_text() -> Seq<char> {
    "I could not produce a grounded answer from the available evidence."@
}

/// An answer is grounded when it has text, cites something, and does not
/// carry the sentence that marks a failed synthesis.
pub open spec fn grounded_answer(a: Seq<char>, cits: Seq<Seq<char>>) -> bool {
    trim(a).len() > 0 && cits.len() > 0 && !has_sub(lower_seq(a), sentinel())
}

/// The citations of `raw` that name an evidence node, in order.
pub open spec fn normalized(raw: Seq<Seq<char>>, ev: Seq<Seq<char>>) -> Seq<Seq<char>> {
    raw.filter(in_evidence(ev))
}

/// `s` with each repeated item dropped after its first occurrence.
pub open spec fn dedupe(s: Seq<Seq<char>>) -> Seq<Seq<char>>
    decreases s.len(),
{
    if s.len() == 0 {
        Seq::empty()
    } else {
        let d = dedupe(s.drop_last());
        if d.contains(s.last()) {
            d
        } else {
            d.push(s.last())
        }
    }
}

/// The position where `x` first occurs in `s`.
pub open spec fn first_pos(s: Seq<Seq<char>>, x: Seq<char>) -> int
    decreases s.len(),
{
    if s.len() == 0 {
        -1
    } else if s.drop_last().contains(x) {
        first_pos(s.drop_last(), x)
    } else {
        s.len() - 1
    }
}

/// The confidence that a grounded answer earns from its length and the
/// amount of evidence.
pub open spec fn answer_confidence(a: Seq<char>, evidence_count: nat) -> nat {
    if trim(a).len() == 0 {
        150_000
    } else {
        let bonus = if 80_000 * evidence_count > 400_000 {
            400_000
        } else {
            80_000 * evidence_count
        };
        150_000 + bonus + if a.len() > 120 {
            200_000nat
        } else {
            100_000nat
        }
    }
}

/// Rounded percentage of a millionths value.
pub open spec fn percent(ppm: nat) -> nat {
    (ppm + 5000) / 10000
}

pub open spec fn gate_message(overall: nat, required: nat) -> Seq<char> {
    "Insufficient answer quality ("@ + decimal(percent(overall)) + "% < "@ + decimal(
        percent(required),
    )
        + "%). No answer returned; refine the question or add clearer source evidence."@
}

pub open spec fn ids_of(nodes: Seq<DocNodeSummary>) -> Seq<Seq<char>> {
    nodes.map_values(|n: DocNodeSummary| n.id@)
}

pub open spec fn links_of(nodes: Seq<DocNodeSummary>) -> Seq<(Seq<char>, Seq<char>)> {
    nodes.map_values(|n: DocNodeSummary| (n.id@, n.document_id@))
}

pub open spec fn snippets_of(nodes: Seq<DocNodeSummary>) -> Seq<Seq<char>> {
    nodes.map_values(|n: DocNodeSummary| snippet_text(n))
}

/// The titles of the selected nodes that are not empty, at most six.
pub open spec fn section_titles(nodes: Seq<DocNodeSummary>) -> Seq<Seq<char>>
    decreases nodes.len(),
{
    if nodes.len() == 0 {
        Seq::empty()
    } else {
        let t = section_titles(nodes.drop_last());
        if t.len() < 6 && nodes.last().title@.len() > 0 {
            t.push(nodes.last().title@)
        } else {
            t
        }
    }
}

/// The plan of one iteration: the model's step adapted when there is one
/// and it is accepted, else the deterministic plan.
pub open spec fn chosen_plan(
    planner: Planner,
    input: PlannerInput,
    model: Option<GeminiPlannerStep>,
) -> (PlannerDecision, Seq<StepType>) {
    match model {
        Some(step) => match model_plan(planner.config_spec(), input, step) {
            Some(p) => p,
            None => fallback_plan(planner.config_spec(), input),
        },
        None => fallback_plan(planner.config_spec(), input),
    }
}

/// What one executed step reports, for its row and its progress event;
/// `confidence` is in millionths.
#[derive(Debug, Clone)]
pub struct StepRecord {
    pub thought: String,
    pub action: String,
    pub observation: String,
    pub node_refs: Vec<String>,
    pub confidence: u64,
}

/// The outcome of a run that passed the quality gate.
#[derive(Debug, Clone)]
pub struct Completion {
    pub answer_markdown: String,
    pub citations: Vec<String>,
    pub final_confidence: u64,
    pub grounded: bool,
    pub quality: QualityMetrics,
}

/// The transient state of one run.
pub struct RunState {
    pub max_steps: usize,
    pub step_count: usize,
    pub backtrack_count: usize,
    pub explored_sections: Vec<String>,
    pub last_confidence: Option<u64>,
    pub evidence_ids: Vec<String>,
    pub evidence_snippets: Vec<String>,
    pub evidence_doc_map: Vec<(String, String)>,
    pub answer_markdown: String,
    pub citations: Vec<String>,
    pub step_log: Ghost<Seq<nat>>,
}

/// The indices 1, 2, ..., n.
pub open spec fn one_to(n: nat) -> Seq<nat> {
    Seq::new(n, |i: int| (i + 1) as nat)
}

fn clone_strings(v: &Vec<String>) -> (r: Vec<String>)
    ensures
        r.deep_view() == v.deep_view(),
{
    let mut out: Vec<String> = Vec::new();
    let mut i: usize = 0;
    while i < v.len()
        invariant
            i <= v@.len(),
            out.deep_view() == v.deep_view().subrange(0, i as int),
        decreases v@.len() - i,
    {
        let ghost prev = out.deep_view();
        out.push(v[i].clone());
        assert(out.deep_view() =~= prev.push(v.deep_view()[i as int]));
        i += 1;
        assert(out.deep_view() =~= v.deep_view().subrange(0, i as int));
    }
    assert(v.deep_view().subrange(0, v@.len() as int) =~= v.deep_view());
    out
}

/// The ids of `nodes`, in order.
pub fn node_ids(nodes: &Vec<DocNodeSummary>) -> (r: Vec<String>)
    ensures
        r.deep_view() == ids_of(nodes@),
{
    let mut out: Vec<String> = Vec::new();
    let mut i: usize = 0;
    while i < nodes.len()
        invariant
            i <= nodes@.len(),
            out.deep_view() == ids_of(nodes@.subrange(0, i as int)),
        decreases nodes@.len() - i,
    {
        let ghost prev = out.deep_view();
        out.push(nodes[i].id.clone());
        assert(out.deep_view() =~= prev.push(nodes@[i as int].id@));
        i += 1;
        assert(out.deep_view() =~= ids_of(nodes@.subrange(0, i as int)));
    }
    assert(nodes@.subrange(0, nodes@.len() as int) =~= nodes@);
    out
}

/// The ids of the first `k` nodes (all of them when there are fewer).
fn first_ids(nodes: &Vec<DocNodeSummary>, k: usize) -> (r: Vec<String>)
    ensures
        r.deep_view() == ids_of(nodes@.take(if nodes@.len() < k { nodes@.len() as int } else { k as int })),
{
    let n = if nodes.len() < k {
        nodes.len()
    } else {
        k
    };
    let mut out: Vec<String> = Vec::new();
    let mut i: usize = 0;
    while i < n
        invariant
            n <= nodes@.len(),
            i <= n,
            out.deep_view() == ids_of(nodes@.subrange(0, i as int)),
        decreases n - i,
    {
        let ghost prev = out.deep_view();
        out.push(nodes[i].id.clone());
        assert(out.deep_view() =~= prev.push(nodes@[i as int].id@));
        i += 1;
        assert(out.deep_view() =~= ids_of(nodes@.subrange(0, i as int)));
    }
    assert(nodes@.take(n as int) =~= nodes@.subrange(0, n as int));
    out
}

fn first_strings(v: &Vec<String>, k: usize) -> (r: Vec<String>)
    ensures
        r.deep_view() == v.deep_view().take(if v@.len() < k { v@.len() as int } else { k as int }),
{
    let n = if v.len() < k {
        v.len()
    } else {
        k
    };
    let mut out: Vec<String> = Vec::new();
    let mut i: usize = 0;
    while i < n
        invariant
            n <= v@.len(),
            i <= n,
            out.deep_view() == v.deep_view().subrange(0, i as int),
        decreases n - i,
    {
        let ghost prev = out.deep_view();
        out.push(v[i].clone());
        assert(out.deep_view() =~= prev.push(v.deep_view()[i as int]));
        i += 1;
        assert(out.deep_view() =~= v.deep_view().subrange(0, i as int));
    }
    assert(v.deep_view().take(n as int) =~= v.deep_view().subrange(0, n as int));
    out
}

fn text(s: &str) -> (r: String)
    ensures
        r@ == s@,
{
    String::from_str(s)
}

fn counted(prefix: &str, n: usize, suffix: &str) -> (r: String)
    ensures
        r@ == prefix@ + decimal(n as nat) + suffix@,
{
    let mut out = String::from_str(prefix);
    push_decimal(&mut out, n as u64);
    out.append(suffix);
    out
}

/// Whether `citations` contains `s`.
fn holds(citations: &Vec<String>, s: &String) -> (r: bool)
    ensures
        r == citations.deep_view().contains(s@),
{
    let ghost dv = citations.deep_view();
    let mut i: usize = 0;
    while i < citations.len()
        invariant
            dv == citations.deep_view(),
            i <= citations@.len(),
            forall|k: int| 0 <= k < i ==> dv[k] != s@,
        decreases citations@.len() - i,
    {
        if citations[i] == *s {
            assert(dv[i as int] == s@);
            return true;
        }
        i += 1;
    }
    false
}

/// Keeps the first occurrence of each citation, in the order first seen.
pub fn dedupe_citations(citations: Vec<String>) -> (r: Vec<String>)
    ensures
        r.deep_view() == dedupe(citations.deep_view()),
{
    let ghost all = citations.deep_view();
    let mut ordered: Vec<String> = Vec::new();
    let mut i: usize = 0;
    while i < citations.len()
        invariant
            all == citations.deep_view(),
            i <= all.len(),
            ordered.deep_view() == dedupe(all.subrange(0, i as int)),
        decreases all.len() - i,
    {
        assert(all.subrange(0, i + 1).drop_last() =~= all.subrange(0, i as int));
        if !holds(&ordered, &citations[i]) {
            let ghost before = ordered.deep_view();
            ordered.push(citations[i].clone());
            assert(ordered.deep_view() =~= before.push(all[i as int]));
        }
        i += 1;
    }
    assert(all.subrange(0, all.len() as int) =~= all);
    ordered
}

/// The citations that name an evidence node, in order.
pub fn normalize_citations(raw: &Vec<String>, evidence_ids: &Vec<String>) -> (r: Vec<String>)
    ensures
        r.deep_view() == normalized(raw.deep_view(), evidence_ids.deep_view()),
{
    let ghost rv = raw.deep_view();
    let ghost ev = evidence_ids.deep_view();
    let mut out: Vec<String> = Vec::new();
    let mut i: usize = 0;
    while i < raw.len()
        invariant
            rv == raw.deep_view(),
            ev == evidence_ids.deep_view(),
            i <= rv.len(),
            out.deep_view() == rv.subrange(0, i as int).filter(in_evidence(ev)),
        decreases rv.len() - i,
    {
        assert(rv.subrange(0, i + 1) =~= rv.subrange(0, i as int).push(rv[i as int]));
        proof {
            rv.subrange(0, i as int).lemma_filter_push(rv[i as int], in_evidence(ev));
        }
        if holds(evidence_ids, &raw[i]) {
            let ghost before = out.deep_view();
            out.push(raw[i].clone());
            assert(out.deep_view() =~= before.push(rv[i as int]));
        }
        i += 1;
    }
    assert(rv.subrange(0, rv.len() as int) =~= rv);
    out
}

/// Whether an answer is grounded, see `grounded_answer`.
pub fn is_answer_grounded(answer_markdown: &str, citations: &Vec<String>) -> (r: bool)
    ensures
        r == grounded_answer(answer_markdown@, citations.deep_view()),
{
    let t = trimmed(answer_markdown);
    if t.as_str().unicode_len() == 0 {
        return false;
    }
    if citations.len() == 0 {
        return false;
    }
    let lowered = lower_chars_of(answer_markdown);
    !contains_str(&lowered, "could not produce a grounded answer")
}

/// The confidence a grounded answer earns, see `answer_confidence`.
pub fn local_confidence_for_answer(answer: &str, evidence_count: usize) -> (r: u64)
    ensures
        r == answer_confidence(answer@, evidence_count as nat),
        r <= 750_000,
{
    let t = trimmed(answer);
    if t.as_str().unicode_len() == 0 {
        return 150_000;
    }
    let bonus: u64 = if evidence_count >= 5 {
        400_000
    } else {
        80_000 * evidence_count as u64
    };
    let content: u64 = if answer.unicode_len() > 120 {
        200_000
    } else {
        100_000
    };
    150_000 + bonus + content
}

/// The persisted phase of a step kind.
pub fn phase_for_step(step_type: &StepType) -> (r: &'static str)
    ensures
        r@ == match *step_type {
            StepType::Synthesize => "synthesis"@,
            StepType::SelfCheck => "validation"@,
            _ => "retrieval"@,
        },
{
    match step_type {
        StepType::ScanRoot | StepType::SelectSections | StepType::DrillDown
        | StepType::ExtractEvidence => "retrieval",
        StepType::Synthesize => "synthesis",
        StepType::SelfCheck => "validation",
    }
}

/// The focus document in effect, see `effective_focus`.
pub fn effective_focus_document(query: &str, focus_document_id: Option<String>) -> (r: Option<
    String,
>)
    ensures
        match r {
            Some(d) => focus_document_id is Some && effective_focus(
                query@,
                Some(focus_document_id->0@),
            ) == Some(d@),
            None => effective_focus(
                query@,
                match focus_document_id {
                    Some(d) => Some(d@),
                    None => None,
                },
            ) is None,
        },
{
    if requires_project_scope(query) {
        None
    } else {
        focus_document_id
    }
}

/// The plan of one iteration, see `chosen_plan`; `model` is the model's
/// step, or `None` when the planner call failed.
pub fn choose_plan(planner: &Planner, input: &PlannerInput, model: Option<&GeminiPlannerStep>) -> (r:
    PlannedSequence)
    ensures
        (r.decision, kinds(r.steps@)) == chosen_plan(
            *planner,
            *input,
            match model {
                Some(s) => Some(*s),
                None => None,
            },
        ),
{
    match model {
        Some(step) => match planner.next_steps_from_model(input, step) {
            Some(plan) => plan,
            None => planner.next_steps(input),
        },
        None => planner.next_steps(input),
    }
}

/// The rounded percentage of a millionths value.
fn percent_of(ppm: u64) -> (r: u64)
    ensures
        r == percent(ppm as nat),
{
    ((ppm as u128 + 5000) / 10000) as u64
}

impl RunState {
    /// The step indices handed out so far, in order.
    pub open spec fn issued(&self) -> Seq<nat> {
        self.step_log@
    }

    /// The state's invariant.
    pub open spec fn wf(&self) -> bool {
        &&& self.max_steps >= 2
        &&& self.step_count <= self.max_steps
        &&& self.backtrack_count <= MAX_RUN_BACKTRACKS
        &&& match self.last_confidence {
            Some(c) => c <= SCALE,
            None => true,
        }
        &&& self.issued() == one_to(self.step_count as nat)
    }

    /// The loop goes on while no stop condition holds: confidence reached,
    /// steps used up, or backtracks used up.
    pub open spec fn running(&self) -> bool {
        &&& match self.last_confidence {
            Some(c) => c < DONE_CONFIDENCE,
            None => true,
        }
        &&& self.step_count < self.max_steps
        &&& self.backtrack_count < MAX_RUN_BACKTRACKS
    }

    /// A fresh run with the step limit of `step_limit`.
    pub fn new(requested_max_steps: Option<usize>) -> (r: RunState)
        ensures
            r.wf(),
            r.max_steps == step_limit(requested_max_steps),
            r.step_count == 0,
            r.backtrack_count == 0,
            r.last_confidence is None,
            r.evidence_ids@.len() == 0,
            r.evidence_snippets@.len() == 0,
            r.evidence_doc_map@.len() == 0,
            r.explored_sections@.len() == 0,
            r.answer_markdown@.len() == 0,
            r.citations@.len() == 0,
    {
        let requested = match requested_max_steps {
            Some(n) => n,
            None => 6,
        };
        let max_steps = if requested < 2 {
            2
        } else {
            requested
        };
        let r = RunState {
            max_steps,
            step_count: 0,
            backtrack_count: 0,
            explored_sections: Vec::new(),
            last_confidence: None,
            evidence_ids: Vec::new(),
            evidence_snippets: Vec::new(),
            evidence_doc_map: Vec::new(),
            answer_markdown: String::new(),
            citations: Vec::new(),
            step_log: Ghost(Seq::empty()),
        };
        assert(r.issued() =~= one_to(0));
        r
    }

    /// Whether the loop goes on, see `running`.
    pub fn should_continue(&self) -> (r: bool)
        ensures
            r == self.running(),
    {
        let confident = match self.last_confidence {
            Some(c) => c >= DONE_CONFIDENCE,
            None => false,
        };
        !confident && self.step_count < self.max_steps && self.backtrack_count < MAX_RUN_BACKTRACKS
    }

    /// What the planner sees of this state.
    pub fn planner_input(&self, query: &str) -> (r: PlannerInput)
        ensures
            r.query@ == query@,
            r.last_confidence == self.last_confidence,
            r.explored_sections.deep_view() == self.explored_sections.deep_view(),
            r.has_evidence == (self.evidence_ids@.len() > 0),
            r.step_count == self.step_count,
            r.backtrack_count == self.backtrack_count,
    {
        PlannerInput {
            query: String::from_str(query),
            last_confidence: self.last_confidence,
            explored_sections: clone_strings(&self.explored_sections),
            has_evidence: self.evidence_ids.len() > 0,
            step_count: self.step_count,
            backtrack_count: self.backtrack_count,
        }
    }

    /// Takes in the plan's decision: `false` on Stop, which ends the loop;
    /// a backtrack is counted.
    pub fn begin_plan(&mut self, decision: PlannerDecision) -> (r: bool)
        requires
            old(self).wf(),
            old(self).running(),
        ensures
            final(self).wf(),
            r == (decision != PlannerDecision::Stop),
            final(self).backtrack_count == old(self).backtrack_count + if decision
                == PlannerDecision::Backtrack {
                1nat
            } else {
                0nat
            },
            final(self).step_count == old(self).step_count,
            final(self).last_confidence == old(self).last_confidence,
            final(self).max_steps == old(self).max_steps,
            final(self).evidence_ids == old(self).evidence_ids,
    {
        match decision {
            PlannerDecision::Stop => false,
            PlannerDecision::Backtrack => {
                self.backtrack_count = self.backtrack_count + 1;
                true
            },
            PlannerDecision::Continue => true,
        }
    }

    /// Starts the next step: its index, one past the last, or `None` when
    /// the step limit is reached.
    pub fn begin_step(&mut self) -> (r: Option<usize>)
        requires
            old(self).wf(),
        ensures
            final(self).wf(),
            old(self).step_count >= old(self).max_steps ==> r is None && final(self).step_count
                == old(self).step_count,
            old(self).step_count < old(self).max_steps ==> r == Some((old(self).step_count + 1) as usize)
                && final(self).step_count == old(self).step_count + 1,
            final(self).issued() == old(self).issued() + match r {
                Some(i) => seq![i as nat],
                None => Seq::empty(),
            },
            final(self).backtrack_count == old(self).backtrack_count,
            final(self).last_confidence == old(self).last_confidence,
            final(self).max_steps == old(self).max_steps,
            final(self).evidence_ids == old(self).evidence_ids,
    {
        if self.step_count >= self.max_steps {
            assert(self.issued() =~= self.issued() + Seq::empty());
            return None;
        }
        self.step_count = self.step_count + 1;
        let ghost log = self.step_log@;
        self.step_log = Ghost(log.push(self.step_count as nat));
        assert(self.issued() =~= one_to(self.step_count as nat));
        Some(self.step_count)
    }

    /// The root scan: reports the scanned scope and refers to its first
    /// three nodes.
    pub fn record_scan_root(&mut self, nodes: &Vec<DocNodeSummary>) -> (r: StepRecord)
        requires
            old(self).wf(),
        ensures
            final(self).wf(),
            r.confidence == 250_000,
            final(self).last_confidence == Some(250_000u64),
            r.observation@ == "Scanned "@ + decimal(nodes@.len()) + " top-level nodes"@,
            r.node_refs.deep_view() == ids_of(nodes@.take(if nodes@.len() < 3 { nodes@.len() as int } else { 3 })),
            final(self).step_count == old(self).step_count,
            final(self).backtrack_count == old(self).backtrack_count,
            final(self).max_steps == old(self).max_steps,
            final(self).evidence_ids == old(self).evidence_ids,
    {
        self.last_confidence = Some(250_000);
        StepRecord {
            thought: text("Need to establish broad candidate scope from document root"),
            action: text("Scan_Root()"),
            observation: counted("Scanned ", nodes.len(), " top-level nodes"),
            node_refs: first_ids(nodes, 3),
            confidence: 250_000,
        }
    }

    /// Section selection: remembers the titles of the candidates as the
    /// explored sections and refers to all of them.
    pub fn record_select_sections(&mut self, candidates: &Vec<DocNodeSummary>) -> (r: StepRecord)
        requires
            old(self).wf(),
        ensures
            final(self).wf(),
            r.confidence == 450_000,
            final(self).last_confidence == Some(450_000u64),
            final(self).explored_sections.deep_view() == section_titles(candidates@),
            r.node_refs.deep_view() == ids_of(candidates@),
            r.observation@ == "Selected "@ + decimal(candidates@.len()) + " candidate nodes"@,
            final(self).step_count == old(self).step_count,
            final(self).backtrack_count == old(self).backtrack_count,
            final(self).max_steps == old(self).max_steps,
            final(self).evidence_ids == old(self).evidence_ids,
    {
        let mut titles: Vec<String> = Vec::new();
        let mut i: usize = 0;
        while i < candidates.len()
            invariant
                i <= candidates@.len(),
                titles.deep_view() == section_titles(candidates@.subrange(0, i as int)),
            decreases candidates@.len() - i,
        {
            assert(candidates@.subrange(0, i + 1).drop_last() =~= candidates@.subrange(0, i as int));
            if titles.len() < 6 && candidates[i].title.as_str().unicode_len() > 0 {
                let ghost before = titles.deep_view();
                titles.push(candidates[i].title.clone());
                assert(titles.deep_view() =~= before.push(candidates@[i as int].title@));
            }
            i += 1;
        }
        assert(candidates@.subrange(0, candidates@.len() as int) =~= candidates@);
        self.explored_sections = titles;
        self.last_confidence = Some(450_000);
        let refs = node_ids(candidates);
        StepRecord {
            thought: text("Selecting sections that semantically align with query intent"),
            action: text("Select_Sections()"),
            observation: counted("Selected ", candidates.len(), " candidate nodes"),
            node_refs: refs,
            confidence: 450_000,
        }
    }

    /// Drilling down: refers to all candidates.
    pub fn record_drill_down(&mut self, candidates: &Vec<DocNodeSummary>) -> (r: StepRecord)
        requires
            old(self).wf(),
        ensures
            final(self).wf(),
            r.confidence == 580_000,
            final(self).last_confidence == Some(580_000u64),
            r.node_refs.deep_view() == ids_of(candidates@),
            r.observation@ == "Focused on "@ + decimal(candidates@.len()) + " atomic nodes"@,
            final(self).step_count == old(self).step_count,
            final(self).backtrack_count == old(self).backtrack_count,
            final(self).max_steps == old(self).max_steps,
            final(self).evidence_ids == old(self).evidence_ids,
    {
        self.last_confidence = Some(580_000);
        let refs = node_ids(candidates);
        StepRecord {
            thought: text("Drilling down into subsection-level detail"),
            action: text("Drill_Down()"),
            observation: counted("Focused on ", candidates.len(), " atomic nodes"),
            node_refs: refs,
            confidence: 580_000,
        }
    }

    /// Evidence extraction: the candidates become the run's evidence, with
    /// their documents and their prompt snippets.
    pub fn record_extract_evidence(&mut self, candidates: &Vec<DocNodeSummary>) -> (r: StepRecord)
        requires
            old(self).wf(),
        ensures
            final(self).wf(),
            r.confidence == 720_000,
            final(self).last_confidence == Some(720_000u64),
            final(self).evidence_ids.deep_view() == ids_of(candidates@),
            links_view(final(self).evidence_doc_map@) == links_of(candidates@),
            final(self).evidence_snippets.deep_view() == snippets_of(candidates@),
            r.node_refs.deep_view() == ids_of(candidates@),
            final(self).step_count == old(self).step_count,
            final(self).backtrack_count == old(self).backtrack_count,
            final(self).max_steps == old(self).max_steps,
    {
        let mut links: Vec<(String, String)> = Vec::new();
        let mut snippets: Vec<String> = Vec::new();
        let mut i: usize = 0;
        while i < candidates.len()
            invariant
                i <= candidates@.len(),
                links_view(links@) == links_of(candidates@.subrange(0, i as int)),
                snippets.deep_view() == snippets_of(candidates@.subrange(0, i as int)),
            decreases candidates@.len() - i,
        {
            let ghost prev_links = links@;
            links.push((candidates[i].id.clone(), candidates[i].document_id.clone()));
            assert(links_view(links@) =~= links_view(prev_links).push(
                (candidates@[i as int].id@, candidates@[i as int].document_id@),
            ));
            let ghost before = snippets.deep_view();
            snippets.push(snippet_for(&candidates[i]));
            assert(snippets.deep_view() =~= before.push(snippet_text(candidates@[i as int])));
            i += 1;
            assert(links_view(links@) =~= links_of(candidates@.subrange(0, i as int)));
            assert(snippets.deep_view() =~= snippets_of(candidates@.subrange(0, i as int)));
        }
        assert(candidates@.subrange(0, candidates@.len() as int) =~= candidates@);
        self.evidence_ids = node_ids(candidates);
        self.evidence_doc_map = links;
        self.evidence_snippets = snippets;
        self.last_confidence = Some(720_000);
        StepRecord {
            thought: text("Extracting evidence claims and table rows from selected nodes"),
            action: text("Extract_Evidence()"),
            observation: counted("Captured ", self.evidence_snippets.len(), " evidence snippets"),
            node_refs: node_ids(candidates),
            confidence: 720_000,
        }
    }

    /// The prompt of the synthesis step; NOT_FOUND when no evidence was
    /// collected.
    pub fn synthesis_request(&self, query: &str) -> (r: Result<String, AppError>)
        ensures
            self.evidence_snippets@.len() == 0 ==> r is Err && r->Err_0 is NotFound,
            self.evidence_snippets@.len() > 0 ==> r is Ok && r->Ok_0@ == synthesis_text(
                query@,
                self.evidence_snippets.deep_view(),
            ),
    {
        if self.evidence_snippets.len() == 0 {
            return Err(AppError::NotFound(String::from_str("no evidence nodes found for query")));
        }
        Ok(synthesis_prompt(query, &self.evidence_snippets))
    }

    /// Takes in the model's answer: its trimmed text (or the marker sentence
    /// when blank), its citations that name evidence (or the first four
    /// evidence ids when none does), and its confidence capped at one.
    pub fn record_answer(&mut self, answer: &GeminiAnswer) -> (r: StepRecord)
        requires
            old(self).wf(),
        ensures
            final(self).wf(),
            final(self).answer_markdown@ == if trim(answer.answer_markdown@).len() == 0 {
                empty_answer_text()
            } else {
                trim(answer.answer_markdown@)
            },
            final(self).citations.deep_view() == if normalized(
                answer.citations.deep_view(),
                old(self).evidence_ids.deep_view(),
            ).len() == 0 {
                old(self).evidence_ids.deep_view().take(
                    if old(self).evidence_ids@.len() < 4 { old(self).evidence_ids@.len() as int } else { 4 },
                )
            } else {
                normalized(answer.citations.deep_view(), old(self).evidence_ids.deep_view())
            },
            r.node_refs.deep_view() == final(self).citations.deep_view(),
            r.confidence == if answer.confidence > SCALE {
                SCALE
            } else {
                answer.confidence
            },
            final(self).last_confidence == Some(r.confidence),
            final(self).evidence_ids == old(self).evidence_ids,
            final(self).step_count == old(self).step_count,
            final(self).backtrack_count == old(self).backtrack_count,
            final(self).max_steps == old(self).max_steps,
    {
        let t = trimmed(answer.answer_markdown.as_str());
        self.answer_markdown = if t.as_str().unicode_len() == 0 {
            String::from_str("I could not produce a grounded answer from the available evidence.")
        } else {
            t
        };
        let normalized_refs = normalize_citations(&answer.citations, &self.evidence_ids);
        let references = if normalized_refs.len() == 0 {
            first_strings(&self.evidence_ids, 4)
        } else {
            normalized_refs
        };
        let confidence = if answer.confidence > SCALE {
            SCALE
        } else {
            answer.confidence
        };
        self.citations = clone_strings(&references);
        self.last_confidence = Some(confidence);
        StepRecord {
            thought: text("Synthesizing answer from grounded evidence using Gemini"),
            action: text("Synthesize()"),
            observation: counted("Generated answer draft with ", references.len(), " citation(s)"),
            node_refs: references,
            confidence,
        }
    }

    /// The self check: a grounded answer earns `answer_confidence`, any
    /// other 0.28.
    pub fn record_self_check(&mut self) -> (r: StepRecord)
        requires
            old(self).wf(),
        ensures
            final(self).wf(),
            r.confidence == if grounded_answer(
                old(self).answer_markdown@,
                old(self).evidence_ids.deep_view(),
            ) {
                answer_confidence(old(self).answer_markdown@, old(self).evidence_ids@.len())
            } else {
                280_000
            },
            final(self).last_confidence == Some(r.confidence),
            r.node_refs.deep_view() == old(self).evidence_ids.deep_view(),
            final(self).evidence_ids == old(self).evidence_ids,
            final(self).answer_markdown == old(self).answer_markdown,
            final(self).step_count == old(self).step_count,
            final(self).backtrack_count == old(self).backtrack_count,
            final(self).max_steps == old(self).max_steps,
    {
        let grounded = is_answer_grounded(self.answer_markdown.as_str(), &self.evidence_ids);
        let estimated = if grounded {
            local_confidence_for_answer(self.answer_markdown.as_str(), self.evidence_ids.len())
        } else {
            280_000
        };
        self.last_confidence = Some(estimated);
        let mut observation = String::from_str("Grounded: ");
        observation.append(if grounded { "true" } else { "false" });
        observation.append(" • citations: ");
        push_decimal(&mut observation, self.evidence_ids.len() as u64);
        StepRecord {
            thought: text("Checking whether answer is grounded and sufficiently supported"),
            action: text("Self_Check()"),
            observation,
            node_refs: clone_strings(&self.evidence_ids),
            confidence: estimated,
        }
    }

    /// The end of the run: the deduplicated citations that name evidence,
    /// scored by the evaluator; QUALITY_GATE_FAILED unless the answer is
    /// grounded and reaches the threshold (0.70 for relation queries, else
    /// 0.60). `focus_is_none` tells whether the run had no focus document.
    pub fn conclude(&self, query: &str, focus_is_none: bool) -> (r: Result<Completion, AppError>)
        requires
            self.wf(),
        ensures
            ({
                let cits = dedupe(
                    normalized(self.citations.deep_view(), self.evidence_ids.deep_view()),
                );
                let relation = focus_is_none && project_scope(query@);
                let q = quality(
                    query@,
                    self.answer_markdown@,
                    cits,
                    self.evidence_ids.deep_view(),
                    links_view(self.evidence_doc_map@),
                    relation,
                );
                let grounded = q.grounded && grounded_answer(self.answer_markdown@, cits);
                let required = if relation {
                    MIN_RELATION_QUALITY_SCORE
                } else {
                    MIN_QUALITY_SCORE
                };
                let last = match self.last_confidence {
                    Some(c) => c,
                    None => 300_000,
                };
                if !grounded || q.overall < required {
                    r is Err && r->Err_0 == AppError::QualityGateFailed(r->Err_0->QualityGateFailed_0)
                        && r->Err_0->QualityGateFailed_0@ == gate_message(
                        q.overall as nat,
                        required as nat,
                    )
                } else {
                    r is Ok && r->Ok_0.citations.deep_view() == cits && r->Ok_0.answer_markdown@
                        == self.answer_markdown@ && r->Ok_0.quality == q && r->Ok_0.grounded
                        && r->Ok_0.final_confidence == if last > q.overall {
                        last
                    } else {
                        q.overall
                    }
                }
            }),
            r is Ok ==> r->Ok_0.final_confidence <= SCALE,
            r is Ok ==> (r->Ok_0.grounded ==> r->Ok_0.final_confidence
                >= r->Ok_0.quality.overall),
            r is Ok ==> forall|k: int|
                0 <= k < r->Ok_0.citations@.len() ==> self.evidence_ids.deep_view().contains(
                    #[trigger] r->Ok_0.citations.deep_view()[k],
                ),
    {
        let normalized_cits = normalize_citations(&self.citations, &self.evidence_ids);
        let citations = dedupe_citations(normalized_cits);
        proof {
            lemma_dedupe_members(normalized(self.citations.deep_view(), self.evidence_ids.deep_view()));
            assert forall|k: int| 0 <= k < citations@.len() implies self.evidence_ids.deep_view().contains(
                #[trigger] citations.deep_view()[k],
            ) by {
                let n = normalized(self.citations.deep_view(), self.evidence_ids.deep_view());
                assert(dedupe(n)[k] == citations.deep_view()[k]);
                assert(dedupe(n).contains(citations.deep_view()[k]));
                assert(n.contains(citations.deep_view()[k]));
                self.citations.deep_view().lemma_filter_contains_rev(
                    in_evidence(self.evidence_ids.deep_view()),
                    citations.deep_view()[k],
                );
                let j = choose|j: int| 0 <= j < n.len() && n[j] == citations.deep_view()[k];
                assert(in_evidence(self.evidence_ids.deep_view())(n[j]));
            }
        }
        let relation = focus_is_none && requires_project_scope(query);
        let metrics = evaluate_answer(
            query,
            self.answer_markdown.as_str(),
            &citations,
            &self.evidence_ids,
            &self.evidence_doc_map,
            relation,
        );
        let grounded = metrics.grounded && is_answer_grounded(
            self.answer_markdown.as_str(),
            &citations,
        );
        let required = if relation {
            MIN_RELATION_QUALITY_SCORE
        } else {
            MIN_QUALITY_SCORE
        };
        if !grounded || metrics.overall < required {
            let mut message = String::from_str("Insufficient answer quality (");
            push_decimal(&mut message, percent_of(metrics.overall));
            message.append("% < ");
            push_decimal(&mut message, percent_of(required));
            message.append(
                "%). No answer returned; refine the question or add clearer source evidence.",
            );
            return Err(AppError::QualityGateFailed(message));
        }
        let last = match self.last_confidence {
            Some(c) => c,
            None => 300_000,
        };
        let final_confidence = if last > metrics.overall {
            last
        } else {
            metrics.overall
        };
        Ok(
            Completion {
                answer_markdown: self.answer_markdown.clone(),
                citations,
                final_confidence,
                grounded,
                quality: metrics,
            },
        )
    }
}

/// Every item of `dedupe(s)` occurs in `s`, and every item of `s` occurs in
/// `dedupe(s)`.
pub proof fn lemma_dedupe_members(s: Seq<Seq<char>>)
    ensures
        forall|x: Seq<char>| dedupe(s).contains(x) <==> s.contains(x),
    decreases s.len(),
{
    if s.len() > 0 {
        let init = s.drop_last();
        lemma_dedupe_members(init);
        assert forall|x: Seq<char>| dedupe(s).contains(x) <==> s.contains(x) by {
            if s.contains(x) && x != s.last() {
                let i = choose|i: int| 0 <= i < s.len() && s[i] == x;
                assert(init[i] == x);
            }
            if init.contains(x) {
                let i = choose|i: int| 0 <= i < init.len() && init[i] == x;
                assert(s[i] == x);
            }
            if dedupe(s).contains(x) && !dedupe(init).contains(x) {
                let d = dedupe(init);
                assert(dedupe(s) == d.push(s.last()));
                let i = choose|i: int| 0 <= i < d.push(s.last()).len() && d.push(s.last())[i] == x;
                if i < d.len() {
                    assert(d.contains(x));
                }
            }
            if x == s.last() && !dedupe(init).contains(x) {
                assert(dedupe(s)[dedupe(s).len() - 1] == x);
            }
            if dedupe(init).contains(x) && !dedupe(init).contains(s.last()) {
                let d = dedupe(init);
                let i = choose|i: int| 0 <= i < d.len() && d[i] == x;
                assert(d.push(s.last())[i] == x);
            }
        }
    }
}

proof fn lemma_first_pos_bounds(s: Seq<Seq<char>>, y: Seq<char>)
    requires
        s.contains(y),
    ensures
        0 <= first_pos(s, y) < s.len(),
        s[first_pos(s, y)] == y,
    decreases s.len(),
{
    let init = s.drop_last();
    if init.contains(y) {
        lemma_first_pos_bounds(init, y);
    } else {
        let i = choose|i: int| 0 <= i < s.len() && s[i] == y;
        if i < s.len() - 1 {
            assert(init[i] == y);
        }
    }
}

/// Deduplication keeps items in the order in which they were first seen:
/// the result has no repeats, holds exactly the items of `s`, and an item
/// stands before another exactly when it first occurs earlier in `s`.
pub proof fn lemma_dedupe_first_seen_order(s: Seq<Seq<char>>)
    ensures
        dedupe(s).no_duplicates(),
        forall|x: Seq<char>| dedupe(s).contains(x) <==> s.contains(x),
        forall|i: int, j: int|
            0 <= i < j < dedupe(s).len() ==> first_pos(s, #[trigger] dedupe(s)[i]) < first_pos(
                s,
                #[trigger] dedupe(s)[j],
            ),
    decreases s.len(),
{
    lemma_dedupe_members(s);
    if s.len() > 0 {
        let init = s.drop_last();
        let x = s.last();
        let d = dedupe(init);
        lemma_dedupe_first_seen_order(init);
        assert forall|k: int| 0 <= k < d.len() implies first_pos(s, d[k]) == first_pos(init, d[k])
            && first_pos(init, d[k]) < init.len() by {
            assert(d.contains(d[k]));
            lemma_first_pos_bounds(init, d[k]);
        }
        if !d.contains(x) {
            assert(!init.contains(x));
            assert(first_pos(s, x) == s.len() - 1);
            let e = d.push(x);
            assert(dedupe(s) == e);
            assert forall|i: int, j: int| 0 <= i < j < e.len() implies first_pos(s, e[i]) < first_pos(
                s,
                e[j],
            ) by {
                if j == d.len() {
                    assert(first_pos(init, d[i]) < init.len());
                } else {
                    assert(first_pos(init, d[i]) < first_pos(init, d[j]));
                }
            }
            assert forall|i: int, j: int|
                0 <= i < e.len() && 0 <= j < e.len() && i != j implies e[i] != e[j] by {
                if i == d.len() {
                    assert(d.contains(d[j]));
                } else if j == d.len() {
                    assert(d.contains(d[i]));
                }
            }
        } else {
            assert forall|i: int, j: int| 0 <= i < j < d.len() implies first_pos(s, d[i]) < first_pos(
                s,
                d[j],
            ) by {
                assert(first_pos(init, d[i]) < first_pos(init, d[j]));
            }
        }
    }
}

/// The indices handed out by `begin_step` are 1, 2, ..., n without gaps,
/// where n is the number of steps taken.
pub proof fn lemma_step_indices_contiguous(s: RunState)
    requires
        s.wf(),
    ensures
        s.issued().len() == s.step_count,
        forall|i: int| 0 <= i < s.issued().len() ==> #[trigger] s.issued()[i] == i + 1,
        s.step_count > 0 ==> s.issued().last() == s.step_count,
{
}

} // verus!
