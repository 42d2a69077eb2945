use mdtool::builder::tree_builder::build_tree;
use mdtool::domain::block_node::BlockNode;
use mdtool::domain::document::DocumentBlock;
use mdtool::domain::selectors::BlockSelector;
use mdtool::ops::read::{read_block_children, read_block_text, read_block_tree, read_blocks_by_type, read_outline};
use mdtool::primitives::BlockId;

fn find(doc: &DocumentBlock, pred: impl Fn(&BlockNode) -> bool) -> BlockId {
    doc.block_by_id.iter().find(|bn| pred(bn)).map(|bn| bn.block().id).unwrap()
}

#[test]
fn outline_basic() {
    let input = "# Alpha\n\na\n\n## Beta\n\nb\n\n## Gamma\n\ng\n";
    let doc = build_tree(input).unwrap();
    let outline = read_outline(&doc, 6, true);
    assert_eq!(outline.len(), 3);
    assert_eq!(outline[0].title, "Alpha");
    assert_eq!(outline[0].level, 1);
    assert_eq!(outline[1].title, "Beta");
    assert_eq!(outline[1].level, 2);
    assert_eq!(outline[2].title, "Gamma");
    assert_eq!(outline[2].level, 2);
}

#[test]
fn outline_max_depth_filters_deep_headings() {
    let input = "# A\n\n## B\n\n### C\n\n#### D\n";
    let doc = build_tree(input).unwrap();
    let outline = read_outline(&doc, 2, true);
    assert!(outline.iter().all(|e| e.level <= 2));
    assert_eq!(outline.len(), 2);
}

#[test]
fn outline_document_order() {
    let input = "# First\n\n## Second\n\n# Third\n";
    let doc = build_tree(input).unwrap();
    let outline = read_outline(&doc, 6, true);
    assert_eq!(outline[0].title, "First");
    assert_eq!(outline[1].title, "Second");
    assert_eq!(outline[2].title, "Third");
}

#[test]
fn outline_includes_paths() {
    let input = "# Architecture\n\n## Parser\n\n### Builder\n";
    let doc = build_tree(input).unwrap();
    let outline = read_outline(&doc, 6, true);
    assert!(outline.iter().any(|e| e.path.as_deref() == Some("/architecture")));
    assert!(outline.iter().any(|e| e.path.as_deref() == Some("/architecture/parser")));
    assert!(outline.iter().any(|e| e.path.as_deref() == Some("/architecture/parser/builder")));
}

#[test]
fn outline_without_paths() {
    let doc = build_tree("# A\n\n## B\n").unwrap();
    let outline = read_outline(&doc, 200, false);
    assert_eq!(outline.len(), 2);
    assert!(outline.iter().all(|e| e.path.is_none()));
}

#[test]
fn outline_empty_document() {
    let doc = build_tree("").unwrap();
    let outline = read_outline(&doc, 6, true);
    assert!(outline.is_empty());
}

#[test]
fn read_text_by_path() {
    let input = "# Hello\n\nSome body text.\n";
    let doc = build_tree(input).unwrap();
    let sel = BlockSelector::from_path("/hello");
    let text = read_block_text(&doc, &sel).unwrap();
    assert!(text.contains("Hello"));
}

#[test]
fn read_text_paragraph() {
    let input = "Standalone paragraph.\n";
    let doc = build_tree(input).unwrap();
    let para_id = find(&doc, |bn| matches!(bn, BlockNode::Paragraph(_)));
    let sel = BlockSelector::from_id(para_id);
    let text = read_block_text(&doc, &sel).unwrap();
    assert_eq!(text, "Standalone paragraph.");
}

#[test]
fn read_text_not_found() {
    let doc = build_tree("# Title\n").unwrap();
    let sel = BlockSelector::from_path("/nonexistent");
    let result = read_block_text(&doc, &sel);
    assert!(result.is_err());
}

#[test]
fn read_text_of_root_is_whole_document() {
    let doc = build_tree("# A\n\nbody\n").unwrap();
    let text = read_block_text(&doc, &BlockSelector::default()).unwrap();
    assert_eq!(text, "# A\n\nbody");
}

#[test]
fn block_tree_root_unlimited() {
    let input = "# A\n\ntext a\n\n## B\n\ntext b\n";
    let doc = build_tree(input).unwrap();
    let sel = BlockSelector::default();
    let tree = read_block_tree(&doc, &sel, -1).unwrap();
    assert_eq!(tree.block_type, "document");
    assert!(!tree.children.is_empty(), "Root should have children");
}

#[test]
fn block_tree_depth_zero_no_children() {
    let input = "# A\n\n## B\n\ntext\n";
    let doc = build_tree(input).unwrap();
    let a_id = find(&doc, |bn| matches!(bn, BlockNode::Section(s) if s.title == "A"));
    let sel = BlockSelector::from_id(a_id);
    let tree = read_block_tree(&doc, &sel, 0).unwrap();
    assert_eq!(tree.block_type, "section");
    assert_eq!(tree.title.as_deref(), Some("A"));
    assert!(tree.children.is_empty(), "depth=0 should suppress children");
}

#[test]
fn block_tree_depth_limited() {
    let input = "# A\n\n## B\n\n### C\n\ntext\n";
    let doc = build_tree(input).unwrap();
    let sel = BlockSelector::default();
    let tree = read_block_tree(&doc, &sel, 1).unwrap();
    for child in &tree.children {
        assert!(child.children.is_empty(), "depth=1 means children of root's children should be empty");
    }
}

#[test]
fn block_tree_section_metadata() {
    let input = "# My Title\n\ntext\n";
    let doc = build_tree(input).unwrap();
    let section_id = find(&doc, |bn| matches!(bn, BlockNode::Section(s) if s.title == "My Title"));
    let sel = BlockSelector::from_id(section_id);
    let tree = read_block_tree(&doc, &sel, -1).unwrap();
    assert_eq!(tree.title.as_deref(), Some("My Title"));
    assert_eq!(tree.level, Some(1));
}

#[test]
fn block_tree_table_metadata() {
    let input = "# Title\n\n| H1 | H2 |\n|----|-----|\n| a  | b  |\n| c  | d  |\n";
    let doc = build_tree(input).unwrap();
    let table_id = find(&doc, |bn| matches!(bn, BlockNode::Table(_)));
    let sel = BlockSelector::from_id(table_id);
    let tree = read_block_tree(&doc, &sel, -1).unwrap();
    assert_eq!(tree.block_type, "table");
    assert_eq!(tree.rows, Some(3));
    assert_eq!(tree.cols, Some(2));
}

#[test]
fn block_tree_list_metadata() {
    let input = "- alpha\n- beta\n- gamma\n";
    let doc = build_tree(input).unwrap();
    let list_id = find(&doc, |bn| matches!(bn, BlockNode::List(_)));
    let sel = BlockSelector::from_id(list_id);
    let tree = read_block_tree(&doc, &sel, -1).unwrap();
    assert_eq!(tree.block_type, "list");
    assert_eq!(tree.items, Some(3));
}

#[test]
fn block_tree_selector_error() {
    let doc = build_tree("# A\n").unwrap();
    assert!(read_block_tree(&doc, &BlockSelector::from_path("/nope"), -1).is_err());
}

#[test]
fn children_of_root() {
    let input = "# A\n\ntext\n\n# B\n\ntext\n";
    let doc = build_tree(input).unwrap();
    let sel = BlockSelector::default();
    let kids = read_block_children(&doc, &sel).unwrap();
    assert!(kids.len() >= 2, "Root should have at least 2 section children");
}

#[test]
fn children_of_section() {
    let input = "# A\n\n## B\n\n## C\n";
    let doc = build_tree(input).unwrap();
    let sel = BlockSelector { title: Some("A".to_string()), ..Default::default() };
    let kids = read_block_children(&doc, &sel).unwrap();
    assert!(kids.len() >= 2, "Section A should have subsections B and C as children");
}

#[test]
fn children_of_leaf_is_empty() {
    let input = "Standalone paragraph.\n";
    let doc = build_tree(input).unwrap();
    let para_id = find(&doc, |bn| matches!(bn, BlockNode::Paragraph(_)));
    let sel = BlockSelector::from_id(para_id);
    let kids = read_block_children(&doc, &sel).unwrap();
    assert!(kids.is_empty());
}

#[test]
fn by_type_sections() {
    let input = "# A\n\n## B\n\n### C\n";
    let doc = build_tree(input).unwrap();
    let ids = read_blocks_by_type(&doc, "section");
    assert_eq!(ids.len(), 3);
}

#[test]
fn by_type_paragraphs() {
    let input = "Para one.\n\nPara two.\n\nPara three.\n";
    let doc = build_tree(input).unwrap();
    let ids = read_blocks_by_type(&doc, "paragraph");
    assert_eq!(ids.len(), 3);
}

#[test]
fn by_type_returns_document_order() {
    let input = "# First\n\ntext\n\n## Second\n\ntext\n";
    let doc = build_tree(input).unwrap();
    let ids = read_blocks_by_type(&doc, "section");
    let titles: Vec<&str> = ids
        .iter()
        .map(|id| match doc.get_block(*id).unwrap() {
            BlockNode::Section(s) => s.title.as_str(),
            _ => "",
        })
        .collect();
    assert_eq!(titles, vec!["First", "Second"]);
}

#[test]
fn by_type_no_match() {
    let doc = build_tree("# Title\n").unwrap();
    let ids = read_blocks_by_type(&doc, "fence");
    assert!(ids.is_empty());
}

#[test]
fn by_type_mixed_blocks() {
    let input = "# Title\n\nParagraph.\n\n```\ncode\n```\n\n- item\n";
    let doc = build_tree(input).unwrap();
    assert_eq!(read_blocks_by_type(&doc, "section").len(), 1);
    assert_eq!(read_blocks_by_type(&doc, "paragraph").len(), 1);
    assert_eq!(read_blocks_by_type(&doc, "fence").len(), 1);
    assert_eq!(read_blocks_by_type(&doc, "list").len(), 1);
}
