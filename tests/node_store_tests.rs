use vectorless_lib::{
    common::types::{DocNodeSummary, NodeType},
    store::nodes::{rank_nodes, subtree},
    store::order::lex_less,
};

fn node(id: &str, doc: &str, parent: Option<&str>, kind: NodeType, title: &str, text: &str, path: &str) -> DocNodeSummary {
    DocNodeSummary {
        id: id.to_string(),
        document_id: doc.to_string(),
        parent_id: parent.map(|p| p.to_string()),
        node_type: kind,
        title: title.to_string(),
        text: text.to_string(),
        ordinal_path: path.to_string(),
        page_start: None,
        page_end: None,
    }
}

fn sample() -> Vec<DocNodeSummary> {
    vec![
        node("para-1", "doc-a", Some("sec-1"), NodeType::Paragraph, "p", "paragraph", "1.1"),
        node("sec-2", "doc-a", Some("root-a"), NodeType::Section, "Second", "second", "2"),
        node("root-b", "doc-b", None, NodeType::Document, "Doc B", "", "root"),
        node("sec-1", "doc-a", Some("root-a"), NodeType::Section, "First", "first", "1"),
        node("root-a", "doc-a", None, NodeType::Document, "Order Doc", "", "root"),
        node("claim-1", "doc-a", Some("para-1"), NodeType::Claim, "c", "claim", "1.1.1"),
    ]
}

fn ids(nodes: &[DocNodeSummary]) -> Vec<&str> {
    nodes.iter().map(|n| n.id.as_str()).collect()
}

#[test]
fn subtree_is_in_reading_order_and_depth_bounded() {
    let tree = subtree(sample(), "doc-a", None, 2);
    assert_eq!(ids(&tree), vec!["root-a", "sec-1", "para-1", "sec-2"]);
    assert!(tree.iter().all(|n| n.document_id == "doc-a"));
}

#[test]
fn subtree_depth_zero_is_the_root() {
    assert_eq!(ids(&subtree(sample(), "doc-a", None, 0)), vec!["root-a"]);
    assert_eq!(ids(&subtree(sample(), "doc-a", None, 9)).len(), 5);
}

#[test]
fn subtree_from_a_parent() {
    let tree = subtree(sample(), "doc-a", Some("sec-1"), 1);
    assert_eq!(ids(&tree), vec!["sec-1", "para-1"]);
    assert!(subtree(sample(), "doc-z", None, 3).is_empty());
}

#[test]
fn lexicographic_order_of_paths() {
    assert!(lex_less("1", "1.1"));
    assert!(lex_less("1.1", "2"));
    assert!(lex_less("10", "2"));
    assert!(!lex_less("root", "root"));
}

#[test]
fn search_scores_terms_and_sections() {
    let nodes = vec![
        node("n1", "doc-a", Some("r"), NodeType::Paragraph, "Intro", "latency numbers", "1.1"),
        node("n2", "doc-a", Some("r"), NodeType::Section, "Latency", "latency dropped", "1"),
        node("n3", "doc-b", Some("r"), NodeType::Paragraph, "Budget", "money", "2"),
        node("n4", "doc-b", Some("r"), NodeType::Section, "Other", "nothing", "3"),
    ];
    // n2: 3 + 1 = 4, n1: 3, n4 (section, no match): 1, n3: 0.
    let ranked = rank_nodes(nodes.clone(), None, "What is the latency?", 10);
    assert_eq!(ids(&ranked), vec!["n2", "n1", "n4"]);
    let top = rank_nodes(nodes.clone(), None, "What is the latency?", 1);
    assert_eq!(ids(&top), vec!["n2"]);
    let focused = rank_nodes(nodes.clone(), Some("doc-b"), "What is the latency?", 10);
    assert_eq!(ids(&focused), vec!["n4"]);
    assert!(rank_nodes(nodes, None, "the and", 10).is_empty());
}

#[test]
fn search_ties_break_on_ordinal_path() {
    let nodes = vec![
        node("b", "d", Some("r"), NodeType::Paragraph, "", "alpha", "2"),
        node("a", "d", Some("r"), NodeType::Paragraph, "", "alpha", "1"),
    ];
    assert_eq!(ids(&rank_nodes(nodes, None, "alpha", 5)), vec!["a", "b"]);
}
