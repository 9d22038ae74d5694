//! Data types shared by the engine and its host.
//!
//! Confidences and quality scores are fixed-point numbers in millionths:
//! `SCALE` stands for 1.0, so every such value lies in `0..=SCALE`.
use vstd::prelude::*;

use crate::text::{equals_str, lower_chars_of, lower_seq};

verus! {

/// The fixed-point unit: 1.0 as millionths.
pub const SCALE: u64 = 1_000_000;

#[derive(Debug, Clone, Copy, PartialEq, Eq, Structural)]
pub enum Provider {
    Gemini,
}

#[derive(Debug, Clone, Copy, PartialEq, Eq, Structural)]
pub enum NodeType {
    Document,
    Section,
    Subsection,
    Paragraph,
    Claim,
    Table,
    Figure,
    Equation,
    Caption,
    Reference,
    Unknown,
}

/// The wire name of each node kind.
pub open spec fn node_type_text(t: NodeType) -> Seq<char> {
    match t {
        NodeType::Document => "document"@,
        NodeType::Section => "section"@,
        NodeType::Subsection => "subsection"@,
        NodeType::Paragraph => "paragraph"@,
        NodeType::Claim => "claim"@,
        NodeType::Table => "table"@,
        NodeType::Figure => "figure"@,
        NodeType::Equation => "equation"@,
        NodeType::Caption => "caption"@,
        NodeType::Reference => "reference"@,
        NodeType::Unknown => "unknown"@,
    }
}

/// The node kind that a name denotes, ignoring ASCII case; `Unknown` for
/// any other name.
pub open spec fn node_type_named(raw: Seq<char>) -> NodeType {
    let l = lower_seq(raw);
    if l == "document"@ {
        NodeType::Document
    } else if l == "section"@ {
        NodeType::Section
    } else if l == "subsection"@ {
        NodeType::Subsection
    } else if l == "paragraph"@ {
        NodeType::Paragraph
    } else if l == "claim"@ {
        NodeType::Claim
    } else if l == "table"@ {
        NodeType::Table
    } else if l == "figure"@ {
        NodeType::Figure
    } else if l == "equation"@ {
        NodeType::Equation
    } else if l == "caption"@ {
        NodeType::Caption
    } else if l == "reference"@ {
        NodeType::Reference
    } else {
        NodeType::Unknown
    }
}

impl NodeType {
    pub fn from_str(raw: &str) -> (r: NodeType)
        ensures
            r == node_type_named(raw@),
    {
        let l = lower_chars_of(raw);
        if equals_str(&l, "document") {
            NodeType::Document
        } else if equals_str(&l, "section") {
            NodeType::Section
        } else if equals_str(&l, "subsection") {
            NodeType::Subsection
        } else if equals_str(&l, "paragraph") {
            NodeType::Paragraph
        } else if equals_str(&l, "claim") {
            NodeType::Claim
        } else if equals_str(&l, "table") {
            NodeType::Table
        } else if equals_str(&l, "figure") {
            NodeType::Figure
        } else if equals_str(&l, "equation") {
            NodeType::Equation
        } else if equals_str(&l, "caption") {
            NodeType::Caption
        } else if equals_str(&l, "reference") {
            NodeType::Reference
        } else {
            NodeType::Unknown
        }
    }

    pub fn as_str(&self) -> (r: &'static str)
        ensures
            r@ == node_type_text(*self),
    {
        match self {
            NodeType::Document => "document",
            NodeType::Section => "section",
            NodeType::Subsection => "subsection",
            NodeType::Paragraph => "paragraph",
            NodeType::Claim => "claim",
            NodeType::Table => "table",
            NodeType::Figure => "figure",
            NodeType::Equation => "equation",
            NodeType::Caption => "caption",
            NodeType::Reference => "reference",
            NodeType::Unknown => "unknown",
        }
    }
}

#[derive(Debug, Clone)]
pub struct SetProviderKeyResponse {
    pub stored: bool,
}

#[derive(Debug, Clone)]
pub struct IngestDocumentResponse {
    pub document_id: String,
    pub root_node_id: String,
    pub node_count: usize,
    pub section_count: usize,
}

#[derive(Debug, Clone)]
pub struct DeleteProjectResponse {
    pub deleted: bool,
}

/// A document node as the engine reads it.
#[derive(Debug, Clone)]
pub struct DocNodeSummary {
    pub id: String,
    pub document_id: String,
    pub parent_id: Option<String>,
    pub node_type: NodeType,
    pub title: String,
    pub text: String,
    pub ordinal_path: String,
    pub page_start: Option<i64>,
    pub page_end: Option<i64>,
}

#[derive(Debug, Clone)]
pub struct GetTreeResponse {
    pub nodes: Vec<DocNodeSummary>,
}

#[derive(Debug, Clone, Copy, PartialEq, Eq, Structural)]
pub enum RunStatus {
    Running,
    Completed,
    Failed,
}

impl RunStatus {
    pub fn as_str(&self) -> (r: &'static str)
        ensures
            r@ == match *self {
                RunStatus::Running => "running"@,
                RunStatus::Completed => "completed"@,
                RunStatus::Failed => "failed"@,
            },
    {
        match self {
            RunStatus::Running => "running",
            RunStatus::Completed => "completed",
            RunStatus::Failed => "failed",
        }
    }
}

/// One persisted reasoning step; `confidence` is in millionths.
#[derive(Debug, Clone)]
pub struct ReasoningStep {
    pub run_id: String,
    pub idx: i64,
    pub step_type: String,
    pub thought: String,
    pub action: String,
    pub observation: String,
    pub node_refs: Vec<String>,
    pub confidence: u64,
    pub latency_ms: i64,
}

/// The stored answer of a completed run; `confidence` is in millionths.
#[derive(Debug, Clone)]
pub struct AnswerRecord {
    pub run_id: String,
    pub answer_markdown: String,
    pub citations: Vec<String>,
    pub confidence: u64,
    pub grounded: bool,
}

#[derive(Debug, Clone)]
pub struct RunReasoningQueryResponse {
    pub run_id: String,
    pub status: String,
}

#[derive(Debug, Clone)]
pub struct ExportMarkdownResponse {
    pub file_path: String,
}

#[derive(Debug, Clone)]
pub struct DeleteDocumentResponse {
    pub deleted: bool,
}

#[derive(Debug, Clone)]
pub struct IngestProgressEvent {
    pub job_id: String,
    pub stage: String,
    pub percent: i64,
    pub message: String,
}

/// The progress event of one step; `confidence` is in millionths.
#[derive(Debug, Clone)]
pub struct ReasoningStepEvent {
    pub run_id: String,
    pub step_index: i64,
    pub step_type: String,
    pub thought: String,
    pub action: String,
    pub observation: String,
    pub node_refs: Vec<String>,
    pub latency_ms: i64,
    pub confidence: u64,
}

#[derive(Debug, Clone)]
pub struct SaveGraphLayoutResponse {
    pub saved: usize,
}

#[derive(Debug, Clone)]
pub struct ReasoningErrorEvent {
    pub run_id: String,
    pub code: String,
    pub message: String,
    pub retryable: bool,
}

/// Quality scores of an answer, each in millionths.
#[derive(Debug, Clone, Copy, PartialEq, Eq, Structural)]
pub struct QualityMetrics {
    pub overall: u64,
    pub query_alignment: u64,
    pub citation_coverage: u64,
    pub cross_document_coverage: u64,
    pub grounded: bool,
}

} // verus!
