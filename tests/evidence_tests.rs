use vectorless_lib::{
    common::types::{DocNodeSummary, NodeType},
    reasoner::evidence::{expanded_limit, pick_candidates, snippet_for},
};

fn node(id: &str, doc: &str, path: &str) -> DocNodeSummary {
    DocNodeSummary {
        id: id.to_string(),
        document_id: doc.to_string(),
        parent_id: Some("r".to_string()),
        node_type: NodeType::Section,
        title: format!("T{id}"),
        text: format!("text {id}"),
        ordinal_path: path.to_string(),
        page_start: None,
        page_end: None,
    }
}

fn ids(nodes: &[DocNodeSummary]) -> Vec<&str> {
    nodes.iter().map(|n| n.id.as_str()).collect()
}

#[test]
fn expanded_limit_is_four_times_and_at_least_twelve() {
    assert_eq!(expanded_limit(1), 12);
    assert_eq!(expanded_limit(3), 12);
    assert_eq!(expanded_limit(6), 24);
    assert_eq!(expanded_limit(8), 32);
}

#[test]
fn fairness_caps_nodes_per_document_without_focus() {
    let ranked = vec![
        node("a1", "doc-a", "1"),
        node("a2", "doc-a", "2"),
        node("a3", "doc-a", "3"),
        node("a4", "doc-a", "4"),
        node("b1", "doc-b", "1"),
    ];
    // limit 6 gives a cap of 3 per document.
    let picked = pick_candidates(ranked.clone(), vec![], false, 6);
    assert_eq!(ids(&picked), vec!["a1", "a2", "a3", "b1"]);
    // with a focus document there is no cap, only the limit.
    let focused = pick_candidates(ranked.clone(), vec![], true, 4);
    assert_eq!(ids(&focused), vec!["a1", "a2", "a3", "a4"]);
    // small limits still allow two per document.
    let small = pick_candidates(ranked, vec![], false, 3);
    assert_eq!(ids(&small), vec!["a1", "a2", "b1"]);
}

#[test]
fn empty_search_falls_back_to_shallow_scope() {
    let shallow = vec![node("root", "doc-a", "root"), node("s1", "doc-a", "1")];
    let picked = pick_candidates(vec![], shallow.clone(), true, 8);
    assert_eq!(ids(&picked), vec!["root", "s1"]);
    let none_wanted = pick_candidates(vec![node("x", "d", "1")], shallow, true, 0);
    assert_eq!(ids(&none_wanted), vec!["root", "s1"]);
}

#[test]
fn snippet_format_truncates_and_flattens() {
    let mut n = node("sec-1", "doc-1", "1");
    n.title = "Latency".to_string();
    n.text = "line one\nline two".to_string();
    assert_eq!(
        snippet_for(&n),
        "[citation:sec-1] document=doc-1 path=1 type=section title=Latency excerpt=line one line two "
    );
    n.text = "x".repeat(600);
    let s = snippet_for(&n);
    assert!(s.ends_with(&format!("excerpt={} ", "x".repeat(500))));
}
