use vectorless_lib::{
    common::errors::AppError,
    common::types::{DocNodeSummary, NodeType},
    export::{markdown_export, normalized_name},
};

fn node(kind: NodeType, title: &str, text: &str) -> DocNodeSummary {
    DocNodeSummary {
        id: "n".to_string(),
        document_id: "d".to_string(),
        parent_id: None,
        node_type: kind,
        title: title.to_string(),
        text: text.to_string(),
        ordinal_path: "1".to_string(),
        page_start: None,
        page_end: None,
    }
}

#[test]
fn markdown_export_layout() {
    let nodes = vec![
        node(NodeType::Document, "Spec", ""),
        node(NodeType::Section, "Intro", "Hello."),
        node(NodeType::Subsection, "Detail", ""),
        node(NodeType::Paragraph, "\u{b6} 1", "Body."),
        node(NodeType::Table, "", "| a |"),
    ];
    assert_eq!(
        markdown_export("Spec.pdf", &nodes),
        "# Spec.pdf\n\n## Intro\nHello.\n\n### Detail\n**\u{b6} 1**\nBody.\n\n| a |\n\n"
    );
    assert_eq!(markdown_export("Empty", &vec![]), "# Empty\n\n");
}

#[test]
fn project_names_are_trimmed_and_required() {
    assert_eq!(normalized_name("  Research  ").unwrap(), "Research");
    assert!(matches!(normalized_name("   "), Err(AppError::InvalidInput(_))));
}
