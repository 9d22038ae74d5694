//! The shape of a parsed document: its header, its nodes and its edges.
use vstd::prelude::*;

verus! {

#[derive(Debug, Clone)]
pub struct SidecarDocument {
    pub title: String,
    pub pages: i64,
}

/// One node record of a parsed document; the root has no parent.
#[derive(Debug, Clone)]
pub struct SidecarNode {
    pub id: String,
    pub parent_id: Option<String>,
    pub node_type: String,
    pub title: String,
    pub text: String,
    pub page_start: Option<i64>,
    pub page_end: Option<i64>,
    pub ordinal_path: String,
}

#[derive(Debug, Clone)]
pub struct SidecarEdge {
    pub from: String,
    pub to: String,
    pub relation: String,
}

#[derive(Debug, Clone)]
pub struct NormalizedPayload {
    pub document: SidecarDocument,
    pub nodes: Vec<SidecarNode>,
    pub edges: Vec<SidecarEdge>,
}

} // verus!
