use mdtool::builder::tree_builder::build_tree;
use mdtool::domain::block_node::BlockNode;
use mdtool::domain::document::DocumentBlock;
use mdtool::domain::selectors::BlockSelector;
use mdtool::error::MdtoolError;
use mdtool::ops::write::{append_child, delete_block, ensure_section, insert_block_after, insert_block_before, move_block, replace_block};
use mdtool::ops::resolve::resolve_selector;
use mdtool::primitives::BlockId;

fn doc_from(source: &str) -> DocumentBlock {
    build_tree(source).unwrap()
}

fn find_section_id(doc: &DocumentBlock, title: &str) -> Option<BlockId> {
    doc.block_by_id.iter().find_map(|bn| match bn {
        BlockNode::Section(s) if s.title == title => Some(s.block.id),
        _ => None,
    })
}

fn find_paragraph_id(doc: &DocumentBlock, contains: &str) -> Option<BlockId> {
    doc.block_by_id.iter().find_map(|bn| match bn {
        BlockNode::Paragraph(p) if p.raw_text.contains(contains) => Some(p.block.id),
        _ => None,
    })
}

#[test]
fn replace_block_paragraph() {
    let source = "# Title\n\nold paragraph\n";
    let doc = doc_from(source);
    let selector = BlockSelector::from_id(find_paragraph_id(&doc, "old").unwrap());
    let (new_doc, diff, _diags) = replace_block(&doc, &selector, "new paragraph").unwrap();
    assert!(diff.changed);
    assert!(new_doc.source_text.contains("new paragraph"));
    assert!(!new_doc.source_text.contains("old paragraph"));
}

#[test]
fn replace_block_exact_text() {
    let doc = doc_from("# Title\n\nold paragraph\n");
    let selector = BlockSelector::from_id(find_paragraph_id(&doc, "old").unwrap());
    let (new_doc, diff, _) = replace_block(&doc, &selector, "new paragraph").unwrap();
    assert_eq!(new_doc.source_text, "# Title\n\nnew paragraph\n");
    assert_eq!(diff.added_lines, 1);
    assert_eq!(diff.removed_lines, 1);
}

#[test]
fn replace_block_no_change() {
    let source = "# Title\n\nsame content\n";
    let doc = doc_from(source);
    let selector = BlockSelector::from_id(find_paragraph_id(&doc, "same").unwrap());
    let (_, diff, _) = replace_block(&doc, &selector, "same content").unwrap();
    assert!(!diff.changed);
}

#[test]
fn replace_section_replaces_subtree() {
    let doc = doc_from("# A\n\na\n\n## B\n\nb\n\n# C\n\nc\n");
    let selector = BlockSelector::from_id(find_section_id(&doc, "A").unwrap());
    let (new_doc, _, _) = replace_block(&doc, &selector, "# Z\n\nz\n").unwrap();
    assert_eq!(new_doc.source_text, "# Z\n\nz\n# C\n\nc\n");
}

#[test]
fn insert_block_before_paragraph() {
    let source = "# Title\n\nexisting paragraph\n";
    let doc = doc_from(source);
    let selector = BlockSelector::from_id(find_paragraph_id(&doc, "existing").unwrap());
    let (new_doc, diff, _diags) = insert_block_before(&doc, &selector, "inserted before").unwrap();
    assert!(diff.changed);
    let lines: Vec<&str> = new_doc.source_text.lines().collect();
    let inserted_idx = lines.iter().position(|l| l.contains("inserted before")).unwrap();
    let existing_idx = lines.iter().position(|l| l.contains("existing paragraph")).unwrap();
    assert!(inserted_idx < existing_idx, "Inserted line should come before existing line");
}

#[test]
fn insert_block_after_paragraph() {
    let source = "# Title\n\nfirst paragraph\n";
    let doc = doc_from(source);
    let selector = BlockSelector::from_id(find_paragraph_id(&doc, "first").unwrap());
    let (new_doc, diff, _diags) = insert_block_after(&doc, &selector, "second paragraph").unwrap();
    assert!(diff.changed);
    assert!(new_doc.source_text.contains("second paragraph"));
    let lines: Vec<&str> = new_doc.source_text.lines().collect();
    let first_idx = lines.iter().position(|l| l.contains("first paragraph")).unwrap();
    let second_idx = lines.iter().position(|l| l.contains("second paragraph")).unwrap();
    assert!(first_idx < second_idx, "First paragraph should come before second");
}

#[test]
fn insert_block_after_last_line_appends() {
    let doc = doc_from("# T\n\nend\n");
    let selector = BlockSelector::from_id(find_paragraph_id(&doc, "end").unwrap());
    let (new_doc, _, _) = insert_block_after(&doc, &selector, "\n\ntail").unwrap();
    assert_eq!(new_doc.source_text, "# T\n\nend\ntail\n");
}

#[test]
fn append_child_to_section() {
    let source = "# Title\n\nexisting content\n";
    let doc = doc_from(source);
    let selector = BlockSelector::from_id(find_section_id(&doc, "Title").unwrap());
    let (new_doc, diff, _diags) = append_child(&doc, &selector, "appended child").unwrap();
    assert!(diff.changed);
    assert!(new_doc.source_text.contains("appended child"));
}

#[test]
fn append_child_to_section_with_subsection() {
    let source = "# Title\n\n## Sub\n\nsub content\n";
    let doc = doc_from(source);
    let selector = BlockSelector::from_id(find_section_id(&doc, "Title").unwrap());
    let (new_doc, diff, _diags) = append_child(&doc, &selector, "appended after sub").unwrap();
    assert!(diff.changed);
    assert!(new_doc.source_text.contains("appended after sub"));
}

#[test]
fn delete_block_paragraph() {
    let source = "# Title\n\ntarget paragraph\n\nother content\n";
    let doc = doc_from(source);
    let selector = BlockSelector::from_id(find_paragraph_id(&doc, "target").unwrap());
    let (new_doc, diff, _diags) = delete_block(&doc, &selector).unwrap();
    assert!(diff.changed);
    assert!(!new_doc.source_text.contains("target paragraph"));
    assert!(new_doc.source_text.contains("other content"));
}

#[test]
fn delete_block_removes_blank_line_before() {
    let doc = doc_from("# Title\n\ntarget\n\nother\n");
    let selector = BlockSelector::from_id(find_paragraph_id(&doc, "target").unwrap());
    let (new_doc, _, _) = delete_block(&doc, &selector).unwrap();
    assert_eq!(new_doc.source_text, "# Title\n\nother\n");
}

#[test]
fn delete_block_section() {
    let source = "# Keep\n\nkeep content\n\n# Delete\n\ndelete content\n";
    let doc = doc_from(source);
    let selector = BlockSelector::from_id(find_section_id(&doc, "Delete").unwrap());
    let (new_doc, diff, _diags) = delete_block(&doc, &selector).unwrap();
    assert!(diff.changed);
    assert!(!new_doc.source_text.contains("# Delete"));
    assert!(!new_doc.source_text.contains("delete content"));
    assert!(new_doc.source_text.contains("keep content"));
}

#[test]
fn ensure_section_creates_new() {
    let source = "# Existing\n\ncontent\n";
    let doc = doc_from(source);
    let (new_doc, diff, _diags) = ensure_section(&doc, "/new-section", 2).unwrap();
    assert!(diff.changed);
    assert!(new_doc.source_text.contains("## new-section"));
}

#[test]
fn ensure_section_exact_text_and_clamped_level() {
    let doc = doc_from("# Existing\n\ncontent\n");
    let (new_doc, _, _) = ensure_section(&doc, "/existing/b", 9).unwrap();
    assert_eq!(new_doc.source_text, "# Existing\n\ncontent\n###### b\n");
    let (top, _, _) = ensure_section(&doc, "/untitled", 0).unwrap();
    assert_eq!(top.source_text, "# Existing\n\ncontent\n# untitled\n");
    match ensure_section(&doc, "///", 0) {
        Err(MdtoolError::Validation(m)) => assert_eq!(m, "Section could not be placed at path '///'"),
        other => panic!("unexpected: {:?}", other.map(|r| r.0.source_text)),
    }
}

#[test]
fn ensure_section_already_exists() {
    let source = "# Existing\n\ncontent\n";
    let doc = doc_from(source);
    let (_, diff, _) = ensure_section(&doc, "/existing", 1).unwrap();
    assert!(!diff.changed);
}

#[test]
fn move_block_to_end() {
    let source = "# A\n\na content\n\n# B\n\nb content\n";
    let doc = doc_from(source);
    let a_id = find_section_id(&doc, "A").unwrap();
    let selector = BlockSelector::from_id(a_id);
    let root_id = doc.root_id();
    let (new_doc, diff, _diags) = move_block(&doc, &selector, root_id, None).unwrap();
    assert!(diff.changed);
    assert!(new_doc.source_text.contains("a content"));
    assert!(new_doc.source_text.contains("b content"));
}

#[test]
fn move_block_to_missing_parent_fails() {
    let doc = doc_from("# A\n\na\n\n# B\n\nb\n");
    let selector = BlockSelector::from_id(find_section_id(&doc, "A").unwrap());
    let err = move_block(&doc, &selector, BlockId(500), None).unwrap_err();
    match err {
        MdtoolError::BlockNotFound { selector } => assert_eq!(selector, "id=BlockId(500)"),
        _ => panic!("expected BlockNotFound"),
    }
}

#[test]
fn replace_block_not_found() {
    let source = "# Title\n\ncontent\n";
    let doc = doc_from(source);
    let selector = BlockSelector { id: Some(BlockId(9999)), ..Default::default() };
    let result = replace_block(&doc, &selector, "new");
    assert!(result.is_err());
}

#[test]
fn delete_block_not_found() {
    let source = "# Title\n\ncontent\n";
    let doc = doc_from(source);
    let selector = BlockSelector { path: Some("/nonexistent".to_string()), ..Default::default() };
    let result = delete_block(&doc, &selector);
    assert!(result.is_err());
}

#[test]
fn write_on_root_selector_is_not_found() {
    let doc = doc_from("# Title\n\ncontent\n");
    match replace_block(&doc, &BlockSelector::default(), "x").unwrap_err() {
        MdtoolError::BlockNotFound { selector } => assert_eq!(selector, "id=BlockId(0)"),
        _ => panic!("expected BlockNotFound"),
    }
}

#[test]
fn move_block_finds_its_target_in_the_document_given() {
    let doc = doc_from("# A\n\na text\n\n# B\n\nb text\n");
    let para = find_paragraph_id(&doc, "a text").unwrap();
    let b_id = find_section_id(&doc, "B").unwrap();
    let (new_doc, diff, _) = move_block(&doc, &BlockSelector::from_id(para), b_id, None).unwrap();
    assert!(diff.changed);
    let text = &new_doc.source_text;
    assert!(text.find("a text").unwrap() > text.find("b text").unwrap());
    let new_b = find_section_id(&new_doc, "B").unwrap();
    let moved = find_paragraph_id(&new_doc, "a text").unwrap();
    let parent = new_doc.block_by_id.iter().find(|bn| bn.block().id == moved).unwrap().block().parent_id;
    assert_eq!(parent, Some(new_b));
}

#[test]
fn insert_block_before_keeps_the_new_text_a_block_of_its_own() {
    let doc = doc_from("# T\n\nold\n");
    let sel = BlockSelector::from_id(find_paragraph_id(&doc, "old").unwrap());
    let (new_doc, _, _) = insert_block_before(&doc, &sel, "new").unwrap();
    assert_eq!(new_doc.source_text, "# T\n\nnew\n\nold\n");
    assert!(find_paragraph_id(&new_doc, "new").is_some());
    assert!(find_paragraph_id(&new_doc, "old").is_some());
}

#[test]
fn ensure_section_lands_at_the_path_asked_for() {
    let doc = doc_from("# Existing\n\ncontent\n");
    let (new_doc, diff, _) = ensure_section(&doc, "/new-section", 2).unwrap();
    assert!(diff.changed);
    assert!(new_doc.source_text.contains("## new-section"));
    assert_eq!(new_doc.source_text, "## new-section\n\n# Existing\n\ncontent\n");
    assert!(resolve_selector(&new_doc, &BlockSelector::from_path("/new-section")).is_ok());
}

#[test]
fn ensure_section_nests_under_its_parent_path() {
    let doc = doc_from("# A\n\nx\n\n# B\n");
    let (new_doc, _, _) = ensure_section(&doc, "/a/sub", 2).unwrap();
    assert_eq!(new_doc.source_text, "# A\n\nx\n\n## sub\n\n# B\n");
    assert!(resolve_selector(&new_doc, &BlockSelector::from_path("/a/sub")).is_ok());
    let (last, _, _) = ensure_section(&doc, "/b/sub", 2).unwrap();
    assert_eq!(last.source_text, "# A\n\nx\n\n# B\n## sub\n");
    assert!(resolve_selector(&last, &BlockSelector::from_path("/b/sub")).is_ok());
}

#[test]
fn ensure_section_refuses_a_missing_or_too_deep_parent() {
    let doc = doc_from("# A\n\nx\n");
    assert!(matches!(ensure_section(&doc, "/nope/sub", 2), Err(MdtoolError::BlockNotFound { .. })));
    match ensure_section(&doc, "/a/sub", 1) {
        Err(MdtoolError::Validation(m)) => assert_eq!(m, "Heading level does not nest under the parent section"),
        other => panic!("unexpected: {:?}", other.map(|r| r.0.source_text)),
    }
}

#[test]
fn ensure_section_reports_a_title_that_does_not_land_at_its_path() {
    let doc = doc_from("# A\n");
    match ensure_section(&doc, "/Big Title", 1) {
        Err(MdtoolError::Validation(m)) => assert_eq!(m, "Section could not be placed at path '/Big Title'"),
        other => panic!("unexpected: {:?}", other.map(|r| r.0.source_text)),
    }
}
