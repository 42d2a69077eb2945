use mdtool::builder::tree_builder::build_tree;
use mdtool::domain::block_node::BlockNode;
use mdtool::domain::document::DocumentBlock;
use mdtool::domain::selectors::{BlockSelector, InsertPosition};
use mdtool::ops::write::insert_block_before;
use mdtool::error::MdtoolError;
use mdtool::ops::edit::{edit, EditOp, EditOperation};
use mdtool::primitives::BlockId;

fn find_section_id(doc: &DocumentBlock, title: &str) -> Option<BlockId> {
    doc.block_by_id.iter().find_map(|bn| match bn {
        BlockNode::Section(s) if s.title == title => Some(s.block.id),
        _ => None,
    })
}

fn op(operation: EditOperation) -> EditOp {
    EditOp {
        operation,
        selector: None,
        content: None,
        position: None,
        target_parent_id: None,
        index: None,
        path: None,
        heading_level: None,
        new_title: None,
        row: None,
        row_index: None,
        col: None,
        value: None,
    }
}

#[test]
fn edit_single_rename() {
    let source = "# Old Title\n\nbody text\n";
    let doc = build_tree(source).unwrap();
    let selector = BlockSelector::from_id(find_section_id(&doc, "Old Title").unwrap());
    let ops = vec![EditOp {
        operation: EditOperation::RenameSection,
        selector: Some(selector),
        new_title: Some("New Title".to_string()),
        content: None,
        position: None,
        target_parent_id: None,
        index: None,
        path: None,
        heading_level: None,
        row: None,
        row_index: None,
        col: None,
        value: None,
    }];
    let (new_doc, diff, _) = edit(&doc, &ops).unwrap();
    assert!(diff.changed);
    assert!(new_doc.source_text.contains("# New Title"));
}

#[test]
fn edit_batch_two_operations() {
    let source = "# Title\n\nparagraph one\n";
    let doc = build_tree(source).unwrap();
    let para_id = doc
        .block_by_id
        .iter()
        .find_map(|bn| match bn {
            BlockNode::Paragraph(_) => Some(bn.block().id),
            _ => None,
        })
        .unwrap();
    let section_selector = BlockSelector::from_id(find_section_id(&doc, "Title").unwrap());
    let ops = vec![
        EditOp {
            operation: EditOperation::Replace,
            selector: Some(BlockSelector::from_id(para_id)),
            content: Some("replaced paragraph".to_string()),
            new_title: None,
            position: None,
            target_parent_id: None,
            index: None,
            path: None,
            heading_level: None,
            row: None,
            row_index: None,
            col: None,
            value: None,
        },
        EditOp {
            operation: EditOperation::RenameSection,
            selector: Some(section_selector),
            new_title: Some("Renamed".to_string()),
            content: None,
            position: None,
            target_parent_id: None,
            index: None,
            path: None,
            heading_level: None,
            row: None,
            row_index: None,
            col: None,
            value: None,
        },
    ];
    let (new_doc, diff, _) = edit(&doc, &ops).unwrap();
    assert!(diff.changed);
    assert!(new_doc.source_text.contains("replaced paragraph"));
}

#[test]
fn edit_batch_bad_selector_rejected() {
    let source = "# Title\n\nbody\n";
    let doc = build_tree(source).unwrap();
    let ops = vec![EditOp {
        operation: EditOperation::RenameSection,
        selector: Some(BlockSelector { path: Some("/nonexistent".to_string()), ..Default::default() }),
        new_title: Some("New".to_string()),
        content: None,
        position: None,
        target_parent_id: None,
        index: None,
        path: None,
        heading_level: None,
        row: None,
        row_index: None,
        col: None,
        value: None,
    }];
    let result = edit(&doc, &ops);
    assert!(result.is_err());
}

#[test]
fn edit_rejection_names_the_operation() {
    let doc = build_tree("# Title\n\nbody\n").unwrap();
    let mut good = op(EditOperation::RenameSection);
    good.selector = Some(BlockSelector::from_path("/title"));
    good.new_title = Some("T".to_string());
    let mut bad = op(EditOperation::Delete);
    bad.selector = Some(BlockSelector::from_path("/missing"));
    match edit(&doc, &[good, bad]).unwrap_err() {
        MdtoolError::Transformation(m) => assert_eq!(
            m,
            "Operation 1 selector resolution failed: block not found for selector: path=/missing"
        ),
        _ => panic!("expected a transformation error"),
    }
}

#[test]
fn edit_empty_operations() {
    let source = "# Title\n\nbody\n";
    let doc = build_tree(source).unwrap();
    let (new_doc, diff, _) = edit(&doc, &[]).unwrap();
    assert!(!diff.changed);
    assert_eq!(new_doc.source_text, doc.source_text);
}

#[test]
fn edit_ensure_section_operation() {
    let source = "# Existing\n\ncontent\n";
    let doc = build_tree(source).unwrap();
    let ops = vec![EditOp {
        operation: EditOperation::EnsureSection,
        selector: None,
        path: Some("/new-section".to_string()),
        heading_level: Some(2),
        content: None,
        new_title: None,
        position: None,
        target_parent_id: None,
        index: None,
        row: None,
        row_index: None,
        col: None,
        value: None,
    }];
    let (new_doc, diff, _) = edit(&doc, &ops).unwrap();
    assert!(diff.changed);
    assert!(new_doc.source_text.contains("## new-section"));
}

#[test]
fn edit_merges_diffs_of_steps() {
    let doc = build_tree("# A\n\nx\n").unwrap();
    let mut first = op(EditOperation::RenameSection);
    first.selector = Some(BlockSelector::from_path("/a"));
    first.new_title = Some("B".to_string());
    let mut second = op(EditOperation::EnsureSection);
    second.path = Some("/c".to_string());
    second.heading_level = Some(1);
    let (new_doc, diff, _) = edit(&doc, &[first, second]).unwrap();
    assert_eq!(new_doc.source_text, "# B\n\nx\n# c\n");
    assert!(diff.changed);
    assert_eq!(diff.changed_line_ranges.len(), 2);
    assert_eq!(diff.added_lines, 2);
    assert_eq!(diff.removed_lines, 1);
}

#[test]
fn edit_stops_at_first_failure() {
    let doc = build_tree("# A\n\nx\n").unwrap();
    let mut level = op(EditOperation::ChangeHeadingLevel);
    level.selector = Some(BlockSelector::from_path("/a"));
    level.heading_level = Some(8);
    match edit(&doc, &[level]).unwrap_err() {
        MdtoolError::Validation(m) => assert_eq!(m, "Heading level must be between 1 and 6, got 8"),
        _ => panic!("expected a validation error"),
    }
}

#[test]
fn edit_insert_honours_its_position() {
    let doc = build_tree("# A\n\nx\n").unwrap();
    let para = doc
        .block_by_id
        .iter()
        .find_map(|bn| match bn {
            BlockNode::Paragraph(p) => Some(p.block.id),
            _ => None,
        })
        .unwrap();
    let mut before = op(EditOperation::Insert);
    before.selector = Some(BlockSelector::from_id(para));
    before.content = Some("y".to_string());
    before.position = Some(InsertPosition::Before);
    let (new_doc, _, _) = edit(&doc, &[before.clone()]).unwrap();
    let (direct, _, _) = insert_block_before(&doc, &BlockSelector::from_id(para), "y").unwrap();
    assert_eq!(new_doc.source_text, direct.source_text);
    assert!(new_doc.source_text.find("y").unwrap() < new_doc.source_text.find("x").unwrap());
    let mut after = before;
    after.position = Some(InsertPosition::After);
    let (new_doc, _, _) = edit(&doc, &[after]).unwrap();
    assert!(new_doc.source_text.find("y").unwrap() > new_doc.source_text.find("x").unwrap());
}
