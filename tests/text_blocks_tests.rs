use vectorless_lib::sidecar::blocks::{
    build_hierarchy, Section,
    classify_block, clean_heading, clean_pptx_heading, group_by_headings, looks_like_heading,
    looks_like_markdown_table, looks_like_tsv_table, text_to_chunks, text_to_sections, BlockKind,
};

fn chunks(text: &str) -> Vec<String> {
    text_to_chunks(&text.chars().collect())
        .into_iter()
        .map(|c| c.into_iter().collect())
        .collect()
}

#[test]
fn markdown_table_blocks_are_tables() {
    let table = "| Name | Score |\n| ---- | ----- |\n| A | 1 |\n| B | 2 |";
    assert!(looks_like_markdown_table(table));
    assert_eq!(classify_block(table), BlockKind::Table);
    assert!(!looks_like_markdown_table("| just one line |"));
    assert!(!looks_like_markdown_table("| a |\n| x- |"));
}

#[test]
fn image_blocks_are_figures() {
    assert_eq!(classify_block("![chart](data:image/png;base64,abc123)"), BlockKind::Figure);
    assert_eq!(classify_block("See ![plot](figs/plot.PNG) here"), BlockKind::Figure);
    assert_eq!(classify_block("<IMG src=x>"), BlockKind::Figure);
    assert_eq!(classify_block("![doc](notes.txt)"), BlockKind::Paragraph);
    assert_eq!(classify_block("   "), BlockKind::Paragraph);
}

#[test]
fn tab_separated_tables() {
    assert!(looks_like_tsv_table("a\tb\nc\td\ne\tf"));
    assert!(!looks_like_tsv_table("a\tb\nc d\ne f"));
    assert_eq!(classify_block("plain words only"), BlockKind::Paragraph);
}

#[test]
fn heading_heuristics() {
    assert!(looks_like_heading("ALL CAPS HEADING"));
    assert!(looks_like_heading("Title Case Heading"));
    assert!(looks_like_heading("# Section 1"));
    assert!(!looks_like_heading("This is a long sentence that ends with a period."));
    assert!(!looks_like_heading("Question heading?"));
    assert!(!looks_like_heading("lower case start"));
    assert!(!looks_like_heading(""));
    assert!(!looks_like_heading(&"W".repeat(121)));
    assert!(!looks_like_heading("One two three four five six seven eight nine ten eleven twelve thirteen"));
}

#[test]
fn cleaning_headings() {
    assert_eq!(clean_heading("## Results "), "Results");
    assert_eq!(clean_pptx_heading("  <!-- # Slide Title -->  "), "Slide Title");
    assert_eq!(clean_pptx_heading("Plain"), "Plain");
}

#[test]
fn chunking_joins_paragraphs_up_to_the_limit() {
    assert_eq!(chunks("a\n\n\n\nb"), vec!["a\n\nb".to_string()]);
    assert!(chunks("  \n\n ").is_empty());
    let long = "Lorem ipsum dolor sit amet. ".repeat(50);
    let parts = chunks(&format!("{long}\n\n{long}"));
    assert_eq!(parts.len(), 2);
}

#[test]
fn sections_from_headings() {
    let sections = text_to_sections("# Section 1\n\nfirst body.\n\nsecond body.\n\n# Section 2\n\nthird body.\n");
    assert_eq!(sections.len(), 2);
    assert_eq!(sections[0].heading, "Section 1");
    assert_eq!(sections[0].paragraphs, vec!["first body.".to_string(), "second body.".to_string()]);
    assert_eq!(sections[1].heading, "Section 2");
    // short capitalised lines read as headings, so a text made only of them
    // falls back to numbered parts.
    let all_headings = text_to_sections("# Section 1\n\nParagraph 1.1\n\nParagraph 1.2");
    assert_eq!(all_headings.len(), 1);
    assert_eq!(all_headings[0].heading, "Part 1");
    let plain = text_to_sections("just some words.");
    assert_eq!(plain[0].heading, "Overview");
    let only_heading = text_to_sections("HEADING");
    assert_eq!(only_heading[0].heading, "Part 1");
    assert_eq!(only_heading[0].paragraphs, vec!["HEADING".to_string()]);
}

#[test]
fn grouping_marked_items() {
    let grouped = group_by_headings(vec![
        (false, "intro text".to_string()),
        (true, "Methods".to_string()),
        (false, "we measured".to_string()),
    ]);
    assert_eq!(grouped.len(), 2);
    assert_eq!(grouped[0].heading, "Overview");
    assert_eq!(grouped[1].heading, "Methods");
    assert_eq!(grouped[1].paragraphs, vec!["we measured".to_string()]);
    let empty = group_by_headings(vec![(true, "Only".to_string())]);
    assert_eq!(empty[0].heading, "Document");
    assert_eq!(empty[0].paragraphs, vec!["(No extractable body text)".to_string()]);
}

#[test]
fn hierarchy_of_sections_and_blocks() {
    let sections = vec![
        Section {
            heading: "Intro".to_string(),
            paragraphs: vec![
                "plain words".to_string(),
                "| a | b |\n| - | - |\n| 1 | 2 |".to_string(),
            ],
        },
        Section {
            heading: "Pictures".to_string(),
            paragraphs: vec!["![x](y.png)".to_string()],
        },
    ];
    let payload = build_hierarchy("Spec".to_string(), 0, &sections).expect("sections");
    assert_eq!(payload.document.pages, 1);
    let shapes: Vec<(&str, &str, &str)> = payload
        .nodes
        .iter()
        .map(|n| (n.node_type.as_str(), n.title.as_str(), n.ordinal_path.as_str()))
        .collect();
    assert_eq!(
        shapes,
        vec![
            ("Document", "Spec", "root"),
            ("Section", "Intro", "1"),
            ("Paragraph", "\u{b6} 1", "1.1"),
            ("Table", "Table 2", "1.2"),
            ("Section", "Pictures", "2"),
            ("Figure", "Figure 1", "2.1"),
        ]
    );
    assert!(payload.nodes[0].id.starts_with("root-"));
    assert!(payload.nodes[1].id.starts_with("s-"));
    assert!(payload.nodes[2].id.starts_with("p-"));
    assert_eq!(payload.nodes[2].parent_id.as_deref(), Some(payload.nodes[1].id.as_str()));
    assert_eq!(payload.nodes[5].parent_id.as_deref(), Some(payload.nodes[4].id.as_str()));
    assert_eq!(payload.edges.len(), 5);
    assert!(payload.edges.iter().all(|e| e.relation == "contains"));
    assert!(matches!(
        build_hierarchy("x".to_string(), 3, &vec![]),
        Err(vectorless_lib::common::errors::AppError::InvalidInput(_))
    ));
}
