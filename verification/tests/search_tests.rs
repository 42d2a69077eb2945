use mdtool::builder::tree_builder::build_tree;
use mdtool::domain::block_node::BlockNode;
use mdtool::domain::document::DocumentBlock;
use mdtool::domain::selectors::BlockSelector;
use mdtool::ops::search::{search_blocks, SearchMatch};
use mdtool::ops::traverse::walk;
use mdtool::primitives::BlockId;

#[test]
fn search_in_paragraph() {
    let input = "Hello world.\n\nGoodbye world.\n";
    let doc = build_tree(input).unwrap();
    let results = search_blocks(&doc, "Hello", None, false);
    assert_eq!(results.len(), 1);
    assert_eq!(results[0].matched_text, "Hello world.");
}

#[test]
fn search_case_insensitive() {
    let input = "Hello World.\n";
    let doc = build_tree(input).unwrap();
    let results = search_blocks(&doc, "hello", None, false);
    assert_eq!(results.len(), 1);
}

#[test]
fn search_case_sensitive() {
    let input = "Hello World.\n";
    let doc = build_tree(input).unwrap();
    let results = search_blocks(&doc, "hello", None, true);
    assert!(results.is_empty(), "Case-sensitive search should not match");
}

#[test]
fn search_empty_query_returns_nothing() {
    let input = "Some text.\n";
    let doc = build_tree(input).unwrap();
    let results = search_blocks(&doc, "", None, false);
    assert!(results.is_empty());
}

#[test]
fn search_in_section_title() {
    let input = "# Architecture\n\nBody text.\n\n# Risks\n\nRisk text.\n";
    let doc = build_tree(input).unwrap();
    let results = search_blocks(&doc, "Risks", None, false);
    assert!(!results.is_empty());
    let section_matches: Vec<&SearchMatch> =
        results.iter().filter(|m| matches!(doc.get_block(m.block_id), Some(BlockNode::Section(_)))).collect();
    assert!(!section_matches.is_empty(), "Should find a section matching 'Risks'");
}

#[test]
fn search_in_fence() {
    let input = "# Code\n\n```rust\nfn main() {}\n```\n";
    let doc = build_tree(input).unwrap();
    let results = search_blocks(&doc, "main", None, false);
    assert!(!results.is_empty());
    let fence_matches: Vec<&SearchMatch> =
        results.iter().filter(|m| matches!(doc.get_block(m.block_id), Some(BlockNode::Fence(_)))).collect();
    assert!(!fence_matches.is_empty(), "Should find a fence block matching 'main'");
}

#[test]
fn search_in_table() {
    let input = "# Data\n\n| Name | Role |\n|------|------|\n| Alice | Engineer |\n| Bob | Manager |\n";
    let doc = build_tree(input).unwrap();
    let results = search_blocks(&doc, "Alice", None, false);
    assert!(!results.is_empty());
    let table_matches: Vec<&SearchMatch> =
        results.iter().filter(|m| matches!(doc.get_block(m.block_id), Some(BlockNode::Table(_)))).collect();
    assert!(!table_matches.is_empty(), "Should find a table block matching 'Alice'");
}

#[test]
fn search_table_snippet_is_row_line() {
    let input = "| Name | Role |\n|------|------|\n| Alice | Engineer |\n";
    let doc = build_tree(input).unwrap();
    let results = search_blocks(&doc, "engineer", None, false);
    assert_eq!(results.len(), 1);
    assert_eq!(results[0].matched_text, "Alice | Engineer");
}

#[test]
fn search_with_selector_scope() {
    let input = "# Alpha\n\nalpha keyword here.\n\n# Beta\n\nbeta keyword there.\n";
    let doc = build_tree(input).unwrap();
    let sel = BlockSelector { title: Some("Beta".to_string()), ..Default::default() };
    let results = search_blocks(&doc, "keyword", Some(&sel), false);
    assert!(!results.is_empty());
    for m in &results {
        let bn = doc.get_block(m.block_id).unwrap();
        let is_in_beta_subtree = is_descendant_of(&doc, m.block_id, "Beta");
        assert!(is_in_beta_subtree, "Match should be in Beta subtree, got {:?}", bn.block_type_name());
    }
}

fn is_descendant_of(doc: &DocumentBlock, block_id: BlockId, title: &str) -> bool {
    let section_id = doc.block_by_id.iter().find_map(|bn| match bn {
        BlockNode::Section(s) if s.title == title => Some(s.block.id),
        _ => None,
    });
    let section_id = match section_id {
        Some(id) => id,
        None => return false,
    };
    if block_id == section_id {
        return true;
    }
    let subtree = walk(section_id, doc);
    subtree.contains(&block_id)
}

#[test]
fn search_with_nonexistent_selector_returns_empty() {
    let input = "# Title\n\ntext\n";
    let doc = build_tree(input).unwrap();
    let sel = BlockSelector::from_path("/nonexistent");
    let results = search_blocks(&doc, "text", Some(&sel), false);
    assert!(results.is_empty());
}

#[test]
fn search_multiple_hits() {
    let input = "# Rust Language\n\nRust is fast.\n\n```rust\n// Rust code\n```\n";
    let doc = build_tree(input).unwrap();
    let results = search_blocks(&doc, "rust", None, false);
    assert!(results.len() >= 2, "Should find multiple blocks matching 'rust', got {}", results.len());
}

#[test]
fn search_no_match() {
    let input = "# Title\n\nSome text.\n";
    let doc = build_tree(input).unwrap();
    let results = search_blocks(&doc, "nonexistent", None, false);
    assert!(results.is_empty());
}

#[test]
fn search_in_html_block() {
    let input = "<div class=\"note\">\nImportant content.\n</div>\n";
    let doc = build_tree(input).unwrap();
    let results = search_blocks(&doc, "Important", None, false);
    assert!(!results.is_empty());
    let html_matches: Vec<&SearchMatch> =
        results.iter().filter(|m| matches!(doc.get_block(m.block_id), Some(BlockNode::Html(_)))).collect();
    assert!(!html_matches.is_empty(), "Should find an HTML block matching 'Important'");
}

#[test]
fn search_in_list() {
    let input = "- buy milk\n- buy eggs\n- buy bread\n";
    let doc = build_tree(input).unwrap();
    let results = search_blocks(&doc, "eggs", None, false);
    assert!(!results.is_empty());
}

#[test]
fn search_snippet_is_first_matching_line() {
    let input = "line one.\nline two has keyword.\nline three.\n";
    let doc = build_tree(input).unwrap();
    let results = search_blocks(&doc, "keyword", None, false);
    assert_eq!(results.len(), 1);
    assert!(results[0].matched_text.contains("keyword"));
}

#[test]
fn search_snippet_exact_line() {
    let input = "line one.\nline two has keyword.\nline three.\n";
    let doc = build_tree(input).unwrap();
    let results = search_blocks(&doc, "KEYWORD", None, false);
    assert_eq!(results[0].matched_text, "line two has keyword.");
}

#[test]
fn search_query_across_lines_falls_back_to_whole_text() {
    let input = "one\ntwo\n";
    let doc = build_tree(input).unwrap();
    let results = search_blocks(&doc, "one\ntwo", None, true);
    assert_eq!(results.len(), 1);
    assert_eq!(results[0].matched_text, "one\ntwo");
}

#[test]
fn search_long_fallback_is_cut_to_200_bytes() {
    let long_a = "a".repeat(150);
    let long_b = "b".repeat(150);
    let input = format!("{}\n{}\n", long_a, long_b);
    let doc = build_tree(&input).unwrap();
    let query = format!("a\n{}", "b");
    let results = search_blocks(&doc, &query, None, true);
    assert_eq!(results.len(), 1);
    let expected = format!("{}\n{}...", long_a, "b".repeat(49));
    assert_eq!(results[0].matched_text, expected);
}

#[test]
fn search_full_document() {
    let input = r#"# Architecture

Overview text about the system.

## Parser

Parses markdown into blocks.

```rust
fn parse() {}
```

| Module | Role |
|--------|------|
| parser | parsing |

# Risks

Some risk text about parser bugs.
"#;
    let doc = build_tree(input).unwrap();
    let results = search_blocks(&doc, "parser", None, false);
    assert!(results.len() >= 3, "Should find at least 3 matches for 'parser', got {}", results.len());
}

#[test]
fn search_snippet_is_cut_on_a_character_boundary() {
    let text = format!("{}\u{e9}\nbb\n", "a".repeat(199));
    let doc = build_tree(&text).unwrap();
    let hits = search_blocks(&doc, "\u{e9}\nb", None, false);
    assert_eq!(hits.len(), 1);
    assert_eq!(hits[0].matched_text, format!("{}...", "a".repeat(199)));
    let ascii = format!("{}foo\nbar\n", "x".repeat(250));
    let doc = build_tree(&ascii).unwrap();
    let hits = search_blocks(&doc, "foo\nbar", None, true);
    assert!(hits.iter().any(|m| m.matched_text == format!("{}...", "x".repeat(200))));
}
