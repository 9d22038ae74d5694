use vectorless_lib::reasoner::evaluator::{
    citation_coverage_score, evaluate_answer, query_alignment_score,
};

fn strings(items: &[&str]) -> Vec<String> {
    items.iter().map(|s| s.to_string()).collect()
}

#[test]
fn evaluator_scores_grounded_cross_document_relation_answer_higher() {
    let citations = vec!["n1".to_string(), "n2".to_string()];
    let evidence = vec!["n1".to_string(), "n2".to_string(), "n3".to_string()];
    let doc_map = vec![
        ("n1".to_string(), "doc-a".to_string()),
        ("n2".to_string(), "doc-b".to_string()),
    ];

    let metrics = evaluate_answer(
        "Explain what these files are about and how they are related",
        "File A describes architecture. File B describes experiments. They are related through shared U-Net components.",
        &citations,
        &evidence,
        &doc_map,
        true,
    );

    assert!(metrics.grounded);
    assert!(metrics.cross_document_coverage as f64 / 1e6 >= 1.0);
    assert!(metrics.overall as f64 / 1e6 >= 0.55);
}

#[test]
fn evaluator_penalizes_ungrounded_answer() {
    let metrics = evaluate_answer("What is this file about?", "", &[].to_vec(), &[].to_vec(), &vec![], false);

    assert!(!metrics.grounded);
    assert!((metrics.overall as f64 / 1e6) < 0.3);
}

#[test]
fn evaluator_exact_weighted_score() {
    // terms: latency, budget; only "latency" occurs in the answer.
    let metrics = evaluate_answer(
        "What is the latency and the budget?",
        "Latency dropped to 50ms p99.",
        &strings(&["sec-1"]),
        &strings(&["sec-1", "sec-2"]),
        &vec![("sec-1".to_string(), "doc-a".to_string())],
        false,
    );
    assert_eq!(metrics.query_alignment, 500_000);
    assert_eq!(metrics.citation_coverage, 500_000);
    assert_eq!(metrics.cross_document_coverage, 1_000_000);
    assert!(metrics.grounded);
    // 0.4 * 0.5 + 0.25 * 0.5 + 0.2 + 0.15 = 0.675
    assert_eq!(metrics.overall, 675_000);
}

#[test]
fn evaluator_relation_query_with_one_document_gets_half() {
    let metrics = evaluate_answer(
        "How are these files related?",
        "Both files discuss latency.",
        &strings(&["n1", "n2"]),
        &strings(&["n1", "n2"]),
        &vec![
            ("n1".to_string(), "doc-a".to_string()),
            ("n2".to_string(), "doc-a".to_string()),
        ],
        true,
    );
    assert_eq!(metrics.cross_document_coverage, 500_000);
    let none = evaluate_answer(
        "How are these files related?",
        "Both files discuss latency.",
        &strings(&["zz"]),
        &strings(&["n1"]),
        &vec![],
        true,
    );
    assert_eq!(none.cross_document_coverage, 0);
    assert_eq!(none.citation_coverage, 0);
}

#[test]
fn alignment_ignores_short_tokens_and_stopwords() {
    assert_eq!(query_alignment_score("is it on?", "anything"), 0);
    assert_eq!(query_alignment_score("What about THEIR results", "the results"), 1_000_000);
    assert_eq!(query_alignment_score("alpha beta gamma", "Gamma ray"), 333_333);
}

#[test]
fn coverage_grows_with_more_valid_citations() {
    let evidence = strings(&["a", "b", "c", "d"]);
    let fewer = citation_coverage_score(&strings(&["a"]), &evidence);
    let more = citation_coverage_score(&strings(&["a", "b", "x"]), &evidence);
    assert_eq!(fewer, 250_000);
    assert_eq!(more, 500_000);
    assert!(more >= fewer);
    assert_eq!(citation_coverage_score(&strings(&["a"]), &vec![]), 0);
    let capped = citation_coverage_score(&strings(&["a", "a", "a"]), &strings(&["a", "b"]));
    assert_eq!(capped, 1_000_000);
}
