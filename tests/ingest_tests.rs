use vectorless_lib::{
    common::errors::AppError,
    common::types::{DocNodeSummary, NodeType},
    ingest::{cached_ingest_response, checksum_bytes, hex_lower, ingest_response},
    sidecar::blocks::{source_format, SourceFormat},
    sidecar::types::SidecarNode,
};

fn node(id: &str, parent: Option<&str>, kind: NodeType) -> DocNodeSummary {
    DocNodeSummary {
        id: id.to_string(),
        document_id: "d".to_string(),
        parent_id: parent.map(|p| p.to_string()),
        node_type: kind,
        title: String::new(),
        text: String::new(),
        ordinal_path: String::new(),
        page_start: None,
        page_end: None,
    }
}

fn parsed(id: &str, kind: &str) -> SidecarNode {
    SidecarNode {
        id: id.to_string(),
        parent_id: None,
        node_type: kind.to_string(),
        title: String::new(),
        text: String::new(),
        page_start: None,
        page_end: None,
        ordinal_path: String::new(),
    }
}

#[test]
fn checksum_is_sha256_hex() {
    assert_eq!(
        checksum_bytes(b"abc"),
        "ba7816bf8f01cfea414140de5dae2223b00361a396177a9cb410ff61f20015ad"
    );
    assert_eq!(
        checksum_bytes(b""),
        "e3b0c44298fc1c149afbf4c8996fb92427ae41e4649b934ca495991b7852b855"
    );
    assert_eq!(hex_lower(&[0x00, 0x0f, 0xa0, 0xff]), "000fa0ff");
}

#[test]
fn cached_document_reports_its_tree() {
    let nodes = vec![
        node("s1", Some("root"), NodeType::Section),
        node("root", None, NodeType::Document),
        node("s2", Some("root"), NodeType::Subsection),
        node("para-1", Some("s1"), NodeType::Paragraph),
    ];
    let resp = cached_ingest_response("doc-1".to_string(), &nodes).expect("has a root");
    assert_eq!(resp.document_id, "doc-1");
    assert_eq!(resp.root_node_id, "root");
    assert_eq!(resp.node_count, 4);
    assert_eq!(resp.section_count, 2);
    let broken = vec![node("s1", Some("gone"), NodeType::Section)];
    assert!(cached_ingest_response("doc-2".to_string(), &broken).is_none());
}

#[test]
fn fresh_document_response() {
    let nodes = vec![parsed("root-x", "Document"), parsed("s-1", "Section"), parsed("p-1", "Paragraph")];
    let resp = ingest_response("doc-9".to_string(), &nodes).expect("nodes");
    assert_eq!(resp.root_node_id, "root-x");
    assert_eq!(resp.node_count, 3);
    assert_eq!(resp.section_count, 1);
    assert!(matches!(ingest_response("d".to_string(), &vec![]), Err(AppError::Internal(_))));
}

#[test]
fn format_dispatch() {
    assert_eq!(source_format("application/pdf", ""), SourceFormat::Pdf);
    assert_eq!(source_format("application/octet-stream", "DOCX"), SourceFormat::Docx);
    assert_eq!(source_format(" application/vnd.openxmlformats-officedocument.spreadsheetml.sheet ", "bin"), SourceFormat::Spreadsheet);
    assert_eq!(source_format("", "pptx"), SourceFormat::Presentation);
    assert_eq!(source_format("image/png", ""), SourceFormat::Image);
    assert_eq!(source_format("text/plain", "xyz"), SourceFormat::Text);
}
