use mdtool::builder::tree_builder::build_tree;
use mdtool::domain::block_node::BlockNode;
use mdtool::domain::document::DocumentBlock;
use mdtool::domain::selectors::{BlockSelector, InsertPosition};
use mdtool::error::MdtoolError;
use mdtool::ops::semantic::{
    add_list_item, add_table_row, change_heading_level, remove_list_item, remove_table_row, rename_section, toggle_task,
    update_table_cell,
};
use mdtool::primitives::BlockId;

fn find_section_id(doc: &DocumentBlock, title: &str) -> Option<BlockId> {
    doc.block_by_id.iter().find_map(|bn| match bn {
        BlockNode::Section(s) if s.title == title => Some(s.block.id),
        _ => None,
    })
}

fn find_kind(doc: &DocumentBlock, name: &str) -> BlockId {
    doc.block_by_id.iter().find(|bn| bn.block_type_name() == name).map(|bn| bn.block().id).unwrap()
}

#[test]
fn rename_section_basic() {
    let source = "# Old Title\n\nbody text\n";
    let doc = build_tree(source).unwrap();
    let selector = BlockSelector::from_id(find_section_id(&doc, "Old Title").unwrap());
    let (new_doc, diff, _) = rename_section(&doc, &selector, "New Title").unwrap();
    assert!(diff.changed);
    assert!(new_doc.source_text.contains("# New Title"));
    assert!(!new_doc.source_text.contains("# Old Title"));
}

#[test]
fn rename_section_level2() {
    let source = "# Main\n\n## Sub\n\nbody\n";
    let doc = build_tree(source).unwrap();
    let selector = BlockSelector::from_id(find_section_id(&doc, "Sub").unwrap());
    let (new_doc, diff, _) = rename_section(&doc, &selector, "Renamed Sub").unwrap();
    assert!(diff.changed);
    assert!(new_doc.source_text.contains("## Renamed Sub"));
}

#[test]
fn rename_section_not_a_section() {
    let source = "# Title\n\nparagraph\n";
    let doc = build_tree(source).unwrap();
    let para_id = find_kind(&doc, "paragraph");
    let selector = BlockSelector::from_id(para_id);
    let result = rename_section(&doc, &selector, "New Title");
    assert!(result.is_err());
}

#[test]
fn rename_section_wrong_kind_message() {
    let doc = build_tree("# Title\n\nparagraph\n").unwrap();
    let selector = BlockSelector::from_id(find_kind(&doc, "paragraph"));
    match rename_section(&doc, &selector, "x").unwrap_err() {
        MdtoolError::Transformation(m) => assert_eq!(m, "Expected a section block, got \"paragraph\""),
        _ => panic!("expected a transformation error"),
    }
}

#[test]
fn change_heading_level_up() {
    let source = "# Title\n\nbody\n";
    let doc = build_tree(source).unwrap();
    let selector = BlockSelector::from_id(find_section_id(&doc, "Title").unwrap());
    let (new_doc, diff, _) = change_heading_level(&doc, &selector, 3).unwrap();
    assert!(diff.changed);
    assert!(new_doc.source_text.contains("### Title"));
}

#[test]
fn change_heading_level_invalid() {
    let source = "# Title\n\nbody\n";
    let doc = build_tree(source).unwrap();
    let selector = BlockSelector::from_id(find_section_id(&doc, "Title").unwrap());
    let result = change_heading_level(&doc, &selector, 0);
    assert!(result.is_err());
}

#[test]
fn change_heading_level_7() {
    let source = "# Title\n\nbody\n";
    let doc = build_tree(source).unwrap();
    let selector = BlockSelector::from_id(find_section_id(&doc, "Title").unwrap());
    let result = change_heading_level(&doc, &selector, 7);
    assert!(result.is_err());
}

#[test]
fn change_heading_level_error_message() {
    let doc = build_tree("# Title\n").unwrap();
    let selector = BlockSelector::from_id(find_section_id(&doc, "Title").unwrap());
    match change_heading_level(&doc, &selector, 9).unwrap_err() {
        MdtoolError::Validation(m) => assert_eq!(m, "Heading level must be between 1 and 6, got 9"),
        _ => panic!("expected a validation error"),
    }
}

#[test]
fn add_table_row_append() {
    let source = "# Title\n\n| A | B |\n|---|---|\n| 1 | 2 |\n";
    let doc = build_tree(source).unwrap();
    let selector = BlockSelector::from_id(find_kind(&doc, "table"));
    let row = vec!["3".to_string(), "4".to_string()];
    let (new_doc, diff, _) = add_table_row(&doc, &selector, &row, InsertPosition::Append).unwrap();
    assert!(diff.changed);
    assert!(new_doc.source_text.contains("| 3 | 4 |"));
}

#[test]
fn add_table_row_at_index() {
    let source = "# Title\n\n| A | B |\n|---|---|\n| 1 | 2 |\n| 5 | 6 |\n";
    let doc = build_tree(source).unwrap();
    let selector = BlockSelector::from_id(find_kind(&doc, "table"));
    let row = vec!["3".to_string(), "4".to_string()];
    let (new_doc, diff, _) = add_table_row(&doc, &selector, &row, InsertPosition::Index(1)).unwrap();
    assert!(diff.changed);
    assert!(new_doc.source_text.contains("| 3 | 4 |"));
}

#[test]
fn add_table_row_positions_exact() {
    let source = "| A | B |\n|---|---|\n| 1 | 2 |\n| 5 | 6 |\n";
    let doc = build_tree(source).unwrap();
    let selector = BlockSelector::from_id(find_kind(&doc, "table"));
    let row = vec!["3".to_string(), "4".to_string()];
    let (at_index, _, _) = add_table_row(&doc, &selector, &row, InsertPosition::Index(1)).unwrap();
    assert_eq!(at_index.source_text, "| A | B |\n|---|---|\n| 1 | 2 |\n| 3 | 4 |\n| 5 | 6 |\n");
    let (before, _, _) = add_table_row(&doc, &selector, &row, InsertPosition::Before).unwrap();
    assert_eq!(before.source_text, "| A | B |\n|---|---|\n| 3 | 4 |\n| 1 | 2 |\n| 5 | 6 |\n");
}

#[test]
fn update_table_cell_basic() {
    let source = "# Title\n\n| A | B |\n|---|---|\n| 1 | 2 |\n";
    let doc = build_tree(source).unwrap();
    let selector = BlockSelector::from_id(find_kind(&doc, "table"));
    let (new_doc, diff, _) = update_table_cell(&doc, &selector, 0, 1, "updated").unwrap();
    assert!(diff.changed);
    assert!(new_doc.source_text.contains("updated"));
}

#[test]
fn update_table_cell_exact_row() {
    let doc = build_tree("| A | B |\n|---|---|\n| 1 | 2 |\n").unwrap();
    let selector = BlockSelector::from_id(find_kind(&doc, "table"));
    let (new_doc, _, _) = update_table_cell(&doc, &selector, 0, 1, "x").unwrap();
    assert_eq!(new_doc.source_text, "| A | B |\n|---|---|\n| 1 | x |\n");
}

#[test]
fn update_table_cell_out_of_bounds() {
    let source = "# Title\n\n| A | B |\n|---|---|\n| 1 | 2 |\n";
    let doc = build_tree(source).unwrap();
    let selector = BlockSelector::from_id(find_kind(&doc, "table"));
    let result = update_table_cell(&doc, &selector, 5, 0, "x");
    assert!(result.is_err());
}

#[test]
fn update_table_cell_column_out_of_bounds() {
    let doc = build_tree("| A | B |\n|---|---|\n| 1 | 2 |\n").unwrap();
    let selector = BlockSelector::from_id(find_kind(&doc, "table"));
    match update_table_cell(&doc, &selector, 0, 2, "x").unwrap_err() {
        MdtoolError::Validation(m) => assert_eq!(m, "Column index 2 out of bounds (table has 2 columns)"),
        _ => panic!("expected a validation error"),
    }
}

#[test]
fn remove_table_row_basic() {
    let source = "# Title\n\n| A | B |\n|---|---|\n| 1 | 2 |\n| 3 | 4 |\n";
    let doc = build_tree(source).unwrap();
    let selector = BlockSelector::from_id(find_kind(&doc, "table"));
    let (new_doc, diff, _) = remove_table_row(&doc, &selector, 0).unwrap();
    assert!(diff.changed);
    assert!(!new_doc.source_text.contains("| 1 | 2 |"));
    assert!(new_doc.source_text.contains("| 3 | 4 |"));
}

#[test]
fn remove_table_row_out_of_bounds() {
    let source = "# Title\n\n| A | B |\n|---|---|\n| 1 | 2 |\n";
    let doc = build_tree(source).unwrap();
    let selector = BlockSelector::from_id(find_kind(&doc, "table"));
    let result = remove_table_row(&doc, &selector, 5);
    assert!(result.is_err());
}

#[test]
fn remove_table_row_error_message() {
    let doc = build_tree("| A | B |\n|---|---|\n| 1 | 2 |\n").unwrap();
    let selector = BlockSelector::from_id(find_kind(&doc, "table"));
    match remove_table_row(&doc, &selector, 5).unwrap_err() {
        MdtoolError::Validation(m) => assert_eq!(m, "Row index 5 out of bounds (table has 1 body rows)"),
        _ => panic!("expected a validation error"),
    }
}

fn item_with(doc: &DocumentBlock, pattern: &str) -> BlockId {
    doc.block_by_id
        .iter()
        .find_map(|bn| match bn {
            BlockNode::ListItem(li) => {
                let src = doc.source_text_for_range(li.block.line_range);
                if src.contains(pattern) {
                    Some(li.block.id)
                } else {
                    None
                }
            }
            _ => None,
        })
        .unwrap()
}

#[test]
fn toggle_task_unchecked_to_checked() {
    let source = "- [ ] buy milk\n- [ ] walk dog\n";
    let doc = build_tree(source).unwrap();
    let selector = BlockSelector::from_id(item_with(&doc, "[ ]"));
    let (new_doc, diff, _) = toggle_task(&doc, &selector).unwrap();
    assert!(diff.changed);
    assert!(new_doc.source_text.contains("[x]"));
}

#[test]
fn toggle_task_checked_to_unchecked() {
    let source = "- [x] done task\n- [ ] pending task\n";
    let doc = build_tree(source).unwrap();
    let selector = BlockSelector::from_id(item_with(&doc, "[x]"));
    let (new_doc, diff, _) = toggle_task(&doc, &selector).unwrap();
    assert!(diff.changed);
    assert!(new_doc.source_text.contains("[ ] done task"));
}

#[test]
fn toggle_task_twice_restores_text() {
    let source = "- [ ] buy milk\n";
    let doc = build_tree(source).unwrap();
    let selector = BlockSelector::from_id(item_with(&doc, "[ ]"));
    let (once, _, _) = toggle_task(&doc, &selector).unwrap();
    assert_eq!(once.source_text, "- [x] buy milk\n");
    let selector2 = BlockSelector::from_id(item_with(&once, "[x]"));
    let (twice, _, _) = toggle_task(&once, &selector2).unwrap();
    assert_eq!(twice.source_text, source);
}

#[test]
fn toggle_task_not_a_task() {
    let source = "# Title\n\n- regular item\n";
    let doc = build_tree(source).unwrap();
    let selector = BlockSelector::from_id(find_kind(&doc, "list_item"));
    let result = toggle_task(&doc, &selector);
    assert!(result.is_err());
}

#[test]
fn add_list_item_append() {
    let source = "# Title\n\n- alpha\n- beta\n";
    let doc = build_tree(source).unwrap();
    let selector = BlockSelector::from_id(find_kind(&doc, "list"));
    let (new_doc, diff, _) = add_list_item(&doc, &selector, "gamma", None).unwrap();
    assert!(diff.changed);
    assert!(new_doc.source_text.contains("gamma"));
}

#[test]
fn add_list_item_at_index() {
    let source = "# Title\n\n- alpha\n- gamma\n";
    let doc = build_tree(source).unwrap();
    let selector = BlockSelector::from_id(find_kind(&doc, "list"));
    let (new_doc, diff, _) = add_list_item(&doc, &selector, "beta", Some(1)).unwrap();
    assert!(diff.changed);
    assert!(new_doc.source_text.contains("beta"));
}

#[test]
fn add_list_item_exact_position() {
    let doc = build_tree("- alpha\n- gamma\n").unwrap();
    let selector = BlockSelector::from_id(find_kind(&doc, "list"));
    let (new_doc, _, _) = add_list_item(&doc, &selector, "beta", Some(1)).unwrap();
    assert_eq!(new_doc.source_text, "- alpha\n- beta\n- gamma\n");
}

#[test]
fn remove_list_item_basic() {
    let source = "# Title\n\n- alpha\n- beta\n- gamma\n";
    let doc = build_tree(source).unwrap();
    let selector = BlockSelector::from_id(find_kind(&doc, "list"));
    let (new_doc, diff, _) = remove_list_item(&doc, &selector, 1).unwrap();
    assert!(diff.changed);
    assert!(!new_doc.source_text.contains("beta"));
    assert!(new_doc.source_text.contains("alpha"));
    assert!(new_doc.source_text.contains("gamma"));
}

#[test]
fn remove_list_item_out_of_bounds() {
    let source = "# Title\n\n- alpha\n- beta\n";
    let doc = build_tree(source).unwrap();
    let selector = BlockSelector::from_id(find_kind(&doc, "list"));
    let result = remove_list_item(&doc, &selector, 5);
    assert!(result.is_err());
}

#[test]
fn rename_section_keeps_setext_style() {
    let doc = build_tree("Old\n===\n\nbody\n").unwrap();
    let selector = BlockSelector::from_id(find_section_id(&doc, "Old").unwrap());
    let (new_doc, diff, _) = rename_section(&doc, &selector, "New").unwrap();
    assert!(diff.changed);
    assert_eq!(new_doc.source_text, "New\n===\n\nbody\n");
    assert!(find_section_id(&new_doc, "New").is_some());
}
