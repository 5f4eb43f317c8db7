use forge_egui::markdown::{list_marker, parse, safe_url, MdBlock, MdSpan, Markdown};

#[test]
fn sanitizer_allows_web_schemes_only() {
    assert_eq!(safe_url("https://forge.dev"), Some("https://forge.dev"));
    assert_eq!(safe_url("http://forge.dev"), Some("http://forge.dev"));
    assert_eq!(safe_url("mailto:x@y.z"), Some("mailto:x@y.z"));
    assert_eq!(safe_url("  HTTPS://x "), Some("HTTPS://x"));
    assert_eq!(safe_url("javascript:alert(1)"), None);
    assert_eq!(safe_url("JaVaScRiPt:alert(1)"), None);
    assert_eq!(safe_url("data:text/html,<x>"), None);
    assert_eq!(safe_url("vbscript:x"), None);
    assert_eq!(safe_url("/relative/path"), None);
}

#[test]
fn headings_map_levels() {
    let blocks = parse("# One\n\n### Three");
    assert_eq!(blocks.len(), 2);
    assert!(matches!(&blocks[0], MdBlock::Heading { level: 1, spans }
        if matches!(&spans[0], MdSpan::Text { text, .. } if text == "One")));
    assert!(matches!(&blocks[1], MdBlock::Heading { level: 3, .. }));
}

#[test]
fn fenced_code_keeps_language() {
    let blocks = parse("```rust\nfn main() {}\n```");
    assert_eq!(
        blocks,
        vec![MdBlock::CodeBlock {
            lang: "rust".to_owned(),
            code: "fn main() {}".to_owned(),
        }]
    );
}

#[test]
fn links_and_inline_code_are_captured() {
    let blocks = parse("see [docs](https://forge.dev) and `cargo run`");
    let MdBlock::Paragraph(spans) = &blocks[0] else {
        panic!("expected paragraph, got {blocks:?}");
    };
    assert!(spans.iter().any(|s| matches!(s, MdSpan::Link { text, url }
        if text == "docs" && url == "https://forge.dev")));
    assert!(spans
        .iter()
        .any(|s| matches!(s, MdSpan::Code(c) if c == "cargo run")));
}

#[test]
fn strong_and_emphasis_flags() {
    let blocks = parse("**bold** and *lean*");
    let MdBlock::Paragraph(spans) = &blocks[0] else {
        panic!("expected paragraph");
    };
    assert!(spans
        .iter()
        .any(|s| matches!(s, MdSpan::Text { text, strong: true, .. } if text == "bold")));
    assert!(spans
        .iter()
        .any(|s| matches!(s, MdSpan::Text { text, emphasis: true, .. } if text == "lean")));
}

#[test]
fn ordered_list_start_and_items() {
    let blocks = parse("3. three\n4. four");
    let MdBlock::List { start, items } = &blocks[0] else {
        panic!("expected list, got {blocks:?}");
    };
    assert_eq!(*start, Some(3));
    assert_eq!(items.len(), 2);
}

#[test]
fn quote_nests_blocks() {
    let blocks = parse("> quoted text");
    let MdBlock::Quote(inner) = &blocks[0] else {
        panic!("expected quote, got {blocks:?}");
    };
    assert!(matches!(&inner[0], MdBlock::Paragraph(_)));
}

#[test]
fn tables_split_header_and_rows() {
    let blocks = parse("| a | b |\n| - | - |\n| 1 | 2 |");
    let MdBlock::Table { header, rows } = &blocks[0] else {
        panic!("expected table, got {blocks:?}");
    };
    assert_eq!(header.len(), 2);
    assert_eq!(rows.len(), 1);
    assert_eq!(rows[0].len(), 2);
}

#[test]
fn raw_html_is_dropped() {
    let blocks = parse("before\n\n<script>alert(1)</script>\n\nafter");
    for block in &blocks {
        if let MdBlock::Paragraph(spans) = block {
            for span in spans {
                if let MdSpan::Text { text, .. } = span {
                    assert!(!text.contains("<script>"));
                }
            }
        }
    }
}

#[test]
fn rule_and_strike_and_nested_list() {
    let blocks = parse("~~gone~~\n\n---\n\n- a\n  - b\n- c");
    assert_eq!(blocks.len(), 3);
    let MdBlock::Paragraph(spans) = &blocks[0] else {
        panic!("expected paragraph, got {blocks:?}");
    };
    assert!(matches!(&spans[0], MdSpan::Text { text, strike: true, .. } if text == "gone"));
    assert_eq!(blocks[1], MdBlock::Rule);
    let MdBlock::List { start: None, items } = &blocks[2] else {
        panic!("expected bullet list, got {blocks:?}");
    };
    assert_eq!(items.len(), 2);
    assert!(items[0].iter().any(|b| matches!(b, MdBlock::List { .. })));
}

#[test]
fn empty_source_has_no_blocks() {
    assert!(parse("").is_empty());
    assert!(parse("   \n\n").is_empty());
}

#[test]
fn markdown_widget_shows_the_parse() {
    let src = "# T\n\ntext";
    assert_eq!(Markdown::new(src).blocks(), parse(src));
}

#[test]
fn safe_url_edge_cases() {
    assert_eq!(safe_url(""), None);
    assert_eq!(safe_url("https:"), None);
    assert_eq!(safe_url("HTTP://"), Some("HTTP://"));
    assert_eq!(safe_url("\tMailTo:a@b "), Some("MailTo:a@b"));
    assert_eq!(safe_url("ftp://x"), None);
}

#[test]
fn only_safe_links_become_hyperlinks() {
    let blocks = parse("[ok](https://forge.dev) [evil](javascript:alert(1)) plain");
    let MdBlock::Paragraph(spans) = &blocks[0] else {
        panic!("expected paragraph, got {blocks:?}");
    };
    let targets: Vec<Option<&str>> = spans
        .iter()
        .filter(|s| matches!(s, MdSpan::Link { .. }))
        .map(|s| s.link_target())
        .collect();
    assert_eq!(targets, vec![Some("https://forge.dev"), None]);
    assert_eq!(MdSpan::Code("x".into()).link_target(), None);
}

#[test]
fn list_markers_count_from_the_start() {
    assert_eq!(list_marker(Some(3), 0), "3. ");
    assert_eq!(list_marker(Some(3), 1), "4. ");
    assert_eq!(list_marker(Some(9), 1), "10. ");
    assert_eq!(list_marker(None, 5), "\u{2022}  ");
}

#[test]
fn indented_code_has_no_language_and_inline_html_is_dropped() {
    assert_eq!(
        parse("    let x = 1;"),
        vec![MdBlock::CodeBlock { lang: String::new(), code: "let x = 1;".to_owned() }]
    );
    let blocks = parse("a <b>bold</b> c");
    let MdBlock::Paragraph(spans) = &blocks[0] else {
        panic!("expected paragraph, got {blocks:?}");
    };
    for span in spans {
        if let MdSpan::Text { text, .. } = span {
            assert!(!text.contains('<'));
        }
    }
}
