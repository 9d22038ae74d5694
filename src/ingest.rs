//! The decisions of document ingestion that do not touch the disk or the
//! store: the content checksum used for deduplication, and the answer given
//! for a document that was ingested before.
use vstd::prelude::*;

use crate::common::errors::AppError;
use crate::common::types::{DocNodeSummary, IngestDocumentResponse, NodeType};
use crate::sidecar::types::SidecarNode;
use crate::text::{equals_str, lower_chars_of, lower_seq, push_char};

verus! {

/// The SHA-256 digest of a byte string, as `sha2` computes it.
pub uninterp spec fn sha256_of(bytes: Seq<u8>) -> Seq<u8>;

/// Relies on `sha2::Sha256::digest`: the 32-byte SHA-256 digest of the
/// input.
#[verifier::external_body]
fn sha256_digest(bytes: &[u8]) -> (r: Vec<u8>)
    ensures
        r@ == sha256_of(bytes@),
        r@.len() == 32,
{
    <sha2::Sha256 as sha2::Digest>::digest(bytes).to_vec()
}

/// A lowercase hexadecimal digit.
pub open spec fn hex_digit(d: nat) -> char {
    if d < 10 {
        ((d + 48) as u8) as char
    } else {
        ((d + 87) as u8) as char
    }
}

/// Two lowercase hexadecimal digits per byte, most significant first.
pub open spec fn hex_of(bytes: Seq<u8>) -> Seq<char>
    decreases bytes.len(),
{
    if bytes.len() == 0 {
        Seq::empty()
    } else {
        hex_of(bytes.drop_last()).push(hex_digit((bytes.last() / 16) as nat)).push(
            hex_digit((bytes.last() % 16) as nat),
        )
    }
}

fn hex_digit_exec(d: u8) -> (r: char)
    requires
        d < 16,
    ensures
        r == hex_digit(d as nat),
{
    if d < 10 {
        (d + 48) as char
    } else {
        (d + 87) as char
    }
}

/// The bytes as lowercase hexadecimal text.
pub fn hex_lower(bytes: &[u8]) -> (r: String)
    ensures
        r@ == hex_of(bytes@),
{
    let mut out = String::new();
    let mut i: usize = 0;
    while i < bytes.len()
        invariant
            i <= bytes@.len(),
            out@ == hex_of(bytes@.subrange(0, i as int)),
        decreases bytes@.len() - i,
    {
        let b = bytes[i];
        assert(bytes@.subrange(0, i + 1).drop_last() =~= bytes@.subrange(0, i as int));
        push_char(&mut out, hex_digit_exec(b / 16));
        push_char(&mut out, hex_digit_exec(b % 16));
        i += 1;
    }
    assert(bytes@.subrange(0, bytes@.len() as int) =~= bytes@);
    out
}

/// The content checksum of a document: its SHA-256 digest in lowercase
/// hexadecimal.
pub fn checksum_bytes(bytes: &[u8]) -> (r: String)
    ensures
        r@ == hex_of(sha256_of(bytes@)),
{
    let digest = sha256_digest(bytes);
    hex_lower(digest.as_slice())
}

pub open spec fn is_section_kind(n: DocNodeSummary) -> bool {
    n.node_type == NodeType::Section || n.node_type == NodeType::Subsection
}

pub open spec fn section_pred() -> spec_fn(DocNodeSummary) -> bool {
    |n: DocNodeSummary| is_section_kind(n)
}

/// What ingesting a file whose checksum matches document `document_id`
/// returns: its root, node count and section count, read from the nodes
/// that the store holds for it; `None` when no node is a root, in which
/// case the stored document is broken and the file is ingested anew.
pub fn cached_ingest_response(document_id: String, nodes: &Vec<DocNodeSummary>) -> (r: Option<
    IngestDocumentResponse,
>)
    ensures
        match r {
            None => forall|i: int| 0 <= i < nodes@.len() ==> nodes@[i].parent_id is Some,
            Some(resp) => {
                &&& resp.document_id == document_id
                &&& exists|i: int|
                    0 <= i < nodes@.len() && nodes@[i].parent_id is None && resp.root_node_id@
                        == nodes@[i].id@ && forall|j: int|
                        0 <= j < i ==> nodes@[j].parent_id is Some
                &&& resp.node_count == nodes@.len()
                &&& resp.section_count == nodes@.filter(section_pred()).len()
            },
        },
{
    let mut root: Option<usize> = None;
    let mut i: usize = 0;
    while i < nodes.len()
        invariant
            i <= nodes@.len(),
            match root {
                None => forall|j: int| 0 <= j < i ==> nodes@[j].parent_id is Some,
                Some(k) => k < nodes@.len() && nodes@[k as int].parent_id is None && forall|j: int|
                    0 <= j < k ==> nodes@[j].parent_id is Some,
            },
        decreases nodes@.len() - i,
    {
        if root.is_none() {
            match &nodes[i].parent_id {
                None => {
                    root = Some(i);
                },
                Some(_) => {},
            }
        }
        i += 1;
    }
    let k = match root {
        None => return None,
        Some(k) => k,
    };
    let mut sections: usize = 0;
    let mut m: usize = 0;
    while m < nodes.len()
        invariant
            m <= nodes@.len(),
            sections == nodes@.subrange(0, m as int).filter(section_pred()).len(),
            sections <= m,
        decreases nodes@.len() - m,
    {
        assert(nodes@.subrange(0, m + 1) =~= nodes@.subrange(0, m as int).push(nodes@[m as int]));
        proof {
            nodes@.subrange(0, m as int).lemma_filter_push(nodes@[m as int], section_pred());
        }
        let kind = nodes[m].node_type;
        if kind == NodeType::Section || kind == NodeType::Subsection {
            sections += 1;
        }
        m += 1;
    }
    assert(nodes@.subrange(0, nodes@.len() as int) =~= nodes@);
    Some(
        IngestDocumentResponse {
            document_id,
            root_node_id: nodes[k].id.clone(),
            node_count: nodes.len(),
            section_count: sections,
        },
    )
}

pub open spec fn names_section(n: SidecarNode) -> bool {
    lower_seq(n.node_type@) == "section"@ || lower_seq(n.node_type@) == "subsection"@
}

pub open spec fn parsed_section_pred() -> spec_fn(SidecarNode) -> bool {
    |n: SidecarNode| names_section(n)
}

/// What ingesting a freshly parsed document returns: the first node as its
/// root, the number of nodes and of section nodes; INTERNAL when the parsed
/// payload has no node.
pub fn ingest_response(document_id: String, nodes: &Vec<SidecarNode>) -> (r: Result<
    IngestDocumentResponse,
    AppError,
>)
    ensures
        nodes@.len() == 0 ==> r is Err && r->Err_0 is Internal,
        nodes@.len() > 0 ==> r is Ok && r->Ok_0.document_id == document_id
            && r->Ok_0.root_node_id@ == nodes@[0].id@ && r->Ok_0.node_count == nodes@.len()
            && r->Ok_0.section_count == nodes@.filter(parsed_section_pred()).len(),
{
    if nodes.len() == 0 {
        return Err(
            AppError::Internal(String::from_str("normalized payload contains no root node")),
        );
    }
    let mut sections: usize = 0;
    let mut m: usize = 0;
    while m < nodes.len()
        invariant
            m <= nodes@.len(),
            sections == nodes@.subrange(0, m as int).filter(parsed_section_pred()).len(),
            sections <= m,
        decreases nodes@.len() - m,
    {
        assert(nodes@.subrange(0, m + 1) =~= nodes@.subrange(0, m as int).push(nodes@[m as int]));
        proof {
            nodes@.subrange(0, m as int).lemma_filter_push(nodes@[m as int], parsed_section_pred());
        }
        let kind = lower_chars_of(nodes[m].node_type.as_str());
        if equals_str(&kind, "section") || equals_str(&kind, "subsection") {
            sections += 1;
        }
        m += 1;
    }
    assert(nodes@.subrange(0, nodes@.len() as int) =~= nodes@);
    Ok(
        IngestDocumentResponse {
            document_id,
            root_node_id: nodes[0].id.clone(),
            node_count: nodes.len(),
            section_count: sections,
        },
    )
}

} // verus!
