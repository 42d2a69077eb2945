use mdtool::builder::tree_builder::build_tree;
use mdtool::domain::block_node::BlockNode;
use mdtool::domain::section::{HeadingVariant, SectionBlock};
use mdtool::infrastructure::parser::{compute_slug, parse_markdown};
use mdtool::primitives::BlockId;

#[test]
fn parse_empty() {
    let doc = parse_markdown("").unwrap();
    assert_eq!(doc.block.id, BlockId(0));
    assert!(doc.block.children_ids.is_empty());
}

#[test]
fn parse_single_paragraph() {
    let doc = parse_markdown("Hello world").unwrap();
    assert_eq!(doc.block.children_ids.len(), 1);
    let bn = doc.get_block(doc.block.children_ids[0]).unwrap();
    match bn {
        BlockNode::Paragraph(p) => assert_eq!(p.raw_text, "Hello world"),
        _ => panic!("Expected Paragraph, got {:?}", bn.block_type_name()),
    }
}

#[test]
fn parse_heading() {
    let doc = parse_markdown("# Title\n\nBody text.").unwrap();
    let found_section =
        doc.block_by_id.iter().any(|bn| matches!(bn, BlockNode::Section(s) if s.title == "Title" && s.level == 1));
    assert!(found_section, "Should find a Section with title 'Title'");
}

#[test]
fn parse_fenced_code() {
    let input = "```rust\nfn main() {}\n```\n";
    let doc = parse_markdown(input).unwrap();
    let found_fence =
        doc.block_by_id.iter().any(|bn| matches!(bn, BlockNode::Fence(f) if f.language.as_deref() == Some("rust")));
    assert!(found_fence, "Should find a FenceBlock with language 'rust'");
}

#[test]
fn parse_thematic_break() {
    let doc = parse_markdown("---\n").unwrap();
    let found = doc.block_by_id.iter().any(|bn| matches!(bn, BlockNode::ThematicBreak(_)));
    assert!(found, "Should find a ThematicBreak");
}

#[test]
fn parse_list() {
    let input = "- item A\n- item B\n";
    let doc = parse_markdown(input).unwrap();
    let found = doc
        .block_by_id
        .iter()
        .any(|bn| matches!(bn, BlockNode::List(l) if !l.ordered && l.block.children_ids.len() >= 2));
    assert!(found, "Should find an unordered List with items");
}

#[test]
fn parse_table() {
    let input = "| A | B |\n|---|---|\n| 1 | 2 |\n";
    let doc = parse_markdown(input).unwrap();
    let found = doc
        .block_by_id
        .iter()
        .any(|bn| matches!(bn, BlockNode::Table(t) if t.header_row.len() == 2 && !t.body_rows.is_empty()));
    assert!(found, "Should find a Table with header and body");
}

#[test]
fn parse_blockquote() {
    let input = "> quoted text\n";
    let doc = parse_markdown(input).unwrap();
    let found = doc.block_by_id.iter().any(|bn| matches!(bn, BlockNode::Blockquote(_)));
    assert!(found, "Should find a Blockquote");
}

#[test]
fn parse_html_block() {
    let input = "<div>\nsome html\n</div>\n";
    let doc = parse_markdown(input).unwrap();
    let found = doc.block_by_id.iter().any(|bn| matches!(bn, BlockNode::Html(_)));
    assert!(found, "Should find an HtmlBlock");
}

#[test]
fn parse_setext_heading() {
    let input = "Title\n===\n\nBody.\n";
    let doc = parse_markdown(input).unwrap();
    let found = doc.block_by_id.iter().any(|bn| matches!(bn, BlockNode::Section(s) if s.variant == HeadingVariant::Setext));
    assert!(found, "Should find a setext heading");
}

#[test]
fn parse_task_list() {
    let input = "- [ ] unchecked\n- [x] checked\n";
    let doc = parse_markdown(input).unwrap();
    let items: Vec<&BlockNode> = doc.block_by_id.iter().filter(|bn| matches!(bn, BlockNode::ListItem(_))).collect();
    assert!(items.len() >= 2, "Should find list items");
}

#[test]
fn parse_task_list_checked_states() {
    let input = "- [ ] unchecked\n- [x] checked\n- plain\n";
    let doc = parse_markdown(input).unwrap();
    let states: Vec<Option<bool>> = doc
        .block_by_id
        .iter()
        .filter_map(|bn| match bn {
            BlockNode::ListItem(li) => Some(li.checked),
            _ => None,
        })
        .collect();
    assert_eq!(states, vec![Some(false), Some(true), None]);
}

#[test]
fn compute_slug_basic() {
    assert_eq!(compute_slug("Hello World"), "hello-world");
}

#[test]
fn compute_slug_special_chars() {
    assert_eq!(compute_slug("A & B! C"), "a-b-c");
}

#[test]
fn compute_slug_unicode_and_edges() {
    assert_eq!(compute_slug("  Über Größe  "), "über-größe");
    assert_eq!(compute_slug("---"), "");
    assert_eq!(compute_slug("v1.2"), "v1-2");
}

#[test]
fn parse_crlf_input_is_normalized() {
    let doc = parse_markdown("\u{feff}# A\r\n\r\ntext\r\n").unwrap();
    assert_eq!(doc.source_text, "# A\n\ntext\n");
    assert_eq!(doc.normalized_text, "\u{feff}# A\r\n\r\ntext\r\n");
}

#[test]
fn parse_full_example() {
    let input = r#"# Architecture

Overview text.

## Parser

Body text.

| Module | Role |
|--------|------|
| builder | constructs tree |

- item A
- item B

# Risks

Some risk text.
"#;
    let doc = parse_markdown(input).unwrap();
    let sections: Vec<&SectionBlock> = doc
        .block_by_id
        .iter()
        .filter_map(|bn| match bn {
            BlockNode::Section(s) => Some(s),
            _ => None,
        })
        .collect();
    assert!(sections.len() >= 3, "Should have at least 3 sections, got {}", sections.len());
    let has_table = doc.block_by_id.iter().any(|bn| matches!(bn, BlockNode::Table(_)));
    assert!(has_table, "Should have a table");
    let has_list = doc.block_by_id.iter().any(|bn| matches!(bn, BlockNode::List(_)));
    assert!(has_list, "Should have a list");
}

// ---- tree building ----

fn section<'a>(doc: &'a mdtool::domain::document::DocumentBlock, title: &str) -> &'a SectionBlock {
    doc.block_by_id
        .iter()
        .find_map(|bn| match bn {
            BlockNode::Section(s) if s.title == title => Some(s),
            _ => None,
        })
        .unwrap()
}

#[test]
fn build_empty_tree() {
    let doc = build_tree("").unwrap();
    assert_eq!(doc.block.id, BlockId(0));
    assert!(doc.block.children_ids.is_empty());
}

#[test]
fn build_heading_tree() {
    let input = "# A\n\na\n\n## B\n\nb\n\n### C\n\nc\n\n## D\n\nd\n\n# E\n\ne\n";
    let doc = build_tree(input).unwrap();
    let sections: Vec<(&str, u8, BlockId)> = doc
        .block_by_id
        .iter()
        .filter_map(|bn| match bn {
            BlockNode::Section(s) => Some((&*s.title, s.level, s.block.id)),
            _ => None,
        })
        .collect();
    assert_eq!(sections.len(), 5);
    let a = section(&doc, "A");
    assert_eq!(a.block.parent_id, Some(BlockId(0)));
    let b = section(&doc, "B");
    assert_eq!(b.block.parent_id, Some(a.block.id));
    let c = section(&doc, "C");
    assert_eq!(c.block.parent_id, Some(b.block.id));
    let e = section(&doc, "E");
    assert_eq!(e.block.parent_id, Some(BlockId(0)));
}

#[test]
fn heading_level_jump_diagnostic() {
    let input = "# A\n\na\n\n### C\n\nc\n";
    let doc = build_tree(input).unwrap();
    assert!(doc.diagnostics.iter().any(|d| d.code == "HEADING_LEVEL_JUMP"), "Should emit HEADING_LEVEL_JUMP diagnostic");
}

#[test]
fn section_paths() {
    let input = "# Architecture\n\n## Parser\n\n### Builder\n\n# Risks\n";
    let doc = build_tree(input).unwrap();
    let sections: Vec<(String, String)> = doc
        .block_by_id
        .iter()
        .filter_map(|bn| match bn {
            BlockNode::Section(s) => Some((s.title.clone(), s.path.clone())),
            _ => None,
        })
        .collect();
    assert!(sections.iter().any(|(t, p)| *t == "Architecture" && p == "/architecture"));
    assert!(sections.iter().any(|(t, p)| *t == "Parser" && p == "/architecture/parser"));
    assert!(sections.iter().any(|(t, p)| *t == "Builder" && p == "/architecture/parser/builder"));
    assert!(sections.iter().any(|(t, p)| *t == "Risks" && p == "/risks"));
}

#[test]
fn content_before_first_heading() {
    let input = "Intro text.\n\n# Title\n\nBody.\n";
    let doc = build_tree(input).unwrap();
    let root_children = &doc.block.children_ids;
    assert!(!root_children.is_empty());
    let first = doc.get_block(root_children[0]).unwrap();
    assert!(matches!(first, BlockNode::Paragraph(_)));
}

#[test]
fn empty_section() {
    let input = "# A\n\n# B\n\nbody.\n";
    let doc = build_tree(input).unwrap();
    let section_a = section(&doc, "A").clone();
    assert!(
        section_a.block.children_ids.is_empty()
            || section_a.block.children_ids.iter().all(|id| matches!(doc.get_block(*id), Some(BlockNode::Section(_))))
    );
}

#[test]
fn duplicate_heading_ordinals() {
    let input = "# Title\n\na\n\n# Title\n\nb\n";
    let doc = build_tree(input).unwrap();
    let mut ordinals: Vec<u32> = doc
        .block_by_id
        .iter()
        .filter_map(|bn| match bn {
            BlockNode::Section(s) if s.title == "Title" => Some(s.ordinal),
            _ => None,
        })
        .collect();
    ordinals.sort();
    assert_eq!(ordinals, vec![1, 2]);
}

#[test]
fn full_example_tree() {
    let input = r#"# Architecture

Overview text.

## Parser

Body text.

| Module | Role |
|--------|------|
| builder | constructs tree |

- item A
- item B

# Risks

Some risk text.
"#;
    let doc = build_tree(input).unwrap();
    let arch = section(&doc, "Architecture").clone();
    assert_eq!(arch.block.parent_id, Some(BlockId(0)));
    let parser = section(&doc, "Parser").clone();
    assert_eq!(parser.block.parent_id, Some(arch.block.id));
    let risks = section(&doc, "Risks").clone();
    assert_eq!(risks.block.parent_id, Some(BlockId(0)));
}

#[test]
fn built_tree_children_come_after_parents() {
    let input = "# A\n\n## B\n\ntext\n\n- x\n- y\n\n# C\n";
    let doc = build_tree(input).unwrap();
    for c in &doc.block.children_ids {
        assert!(c.0 > doc.block.id.0);
    }
    for bn in &doc.block_by_id {
        for c in &bn.block().children_ids {
            assert!(c.0 > bn.block().id.0);
        }
        if let Some(p) = bn.block().parent_id {
            assert!(p.0 < bn.block().id.0);
        }
    }
}

#[test]
fn section_parent_is_nearest_shallower_heading() {
    let input = "# A\n\n### B\n\n## C\n\ntext\n";
    let doc = build_tree(input).unwrap();
    let a = section(&doc, "A").block.id;
    assert_eq!(section(&doc, "B").block.parent_id, Some(a));
    assert_eq!(section(&doc, "C").block.parent_id, Some(a));
    let c = section(&doc, "C").block.id;
    let para = doc
        .block_by_id
        .iter()
        .find_map(|bn| match bn {
            BlockNode::Paragraph(p) => Some(p),
            _ => None,
        })
        .unwrap();
    assert_eq!(para.block.parent_id, Some(c));
}

#[test]
fn section_line_ranges_cover_their_content() {
    let input = "# A\ntext\n## B\nmore\n# C\n";
    let doc = build_tree(input).unwrap();
    let a = section(&doc, "A");
    let b = section(&doc, "B");
    assert_eq!(a.block.line_range.start, 1);
    assert_eq!(a.block.line_range.end, 4);
    assert_eq!(b.block.line_range.end, 4);
    assert_eq!(section(&doc, "C").block.line_range.end, 5);
}
