use mdtool::builder::tree_builder::build_tree;
use mdtool::domain::block_node::BlockNode;
use mdtool::ops::diff::{
    block_content_line_range, collect_descendants, compute_diff, last_descendant_line_end, patch_and_reparse, patch_text,
};
use mdtool::primitives::LineRange;

#[test]
fn patch_text_replace_single_line() {
    let text = "line1\nline2\nline3";
    let result = patch_text(text, LineRange { start: 2, end: 2 }, "replaced");
    assert_eq!(result, "line1\nreplaced\nline3");
}

#[test]
fn patch_text_replace_range() {
    let text = "line1\nline2\nline3\nline4";
    let result = patch_text(text, LineRange { start: 2, end: 3 }, "new2\nnew3");
    assert_eq!(result, "line1\nnew2\nnew3\nline4");
}

#[test]
fn patch_text_replace_with_empty() {
    let text = "line1\nline2\nline3";
    let result = patch_text(text, LineRange { start: 2, end: 2 }, "");
    assert_eq!(result, "line1\nline3");
}

#[test]
fn patch_text_replace_with_more_lines() {
    let text = "line1\nline2\nline3";
    let result = patch_text(text, LineRange { start: 2, end: 2 }, "new2a\nnew2b");
    assert_eq!(result, "line1\nnew2a\nnew2b\nline3");
}

#[test]
fn patch_text_replace_all() {
    let text = "line1\nline2\nline3";
    let result = patch_text(text, LineRange { start: 1, end: 3 }, "all-new");
    assert_eq!(result, "all-new");
}

#[test]
fn patch_text_preserves_trailing_newline() {
    let text = "line1\nline2\n";
    let result = patch_text(text, LineRange { start: 1, end: 1 }, "new1");
    assert_eq!(result, "new1\nline2\n");
}

#[test]
fn patch_text_insert_before_line() {
    let text = "line1\nline2\nline3";
    let result = patch_text(text, LineRange { start: 2, end: 1 }, "inserted");
    assert_eq!(result, "line1\ninserted\nline2\nline3");
}

#[test]
fn patch_text_range_past_end_appends() {
    let text = "a\nb\n";
    assert_eq!(patch_text(text, LineRange { start: 9, end: 8 }, "c"), "a\nb\nc\n");
    assert_eq!(patch_text("", LineRange { start: 1, end: 0 }, "x"), "x");
}

#[test]
fn compute_diff_identical() {
    let text = "line1\nline2\nline3";
    let diff = compute_diff(text, text);
    assert!(!diff.changed);
    assert!(diff.changed_line_ranges.is_empty());
    assert_eq!(diff.added_lines, 0);
    assert_eq!(diff.removed_lines, 0);
}

#[test]
fn compute_diff_single_change() {
    let old = "line1\nline2\nline3";
    let new = "line1\nchanged\nline3";
    let diff = compute_diff(old, new);
    assert!(diff.changed);
    assert_eq!(diff.changed_line_ranges.len(), 1);
    assert_eq!(diff.changed_line_ranges[0], LineRange { start: 2, end: 2 });
}

#[test]
fn compute_diff_additions() {
    let old = "line1\nline2";
    let new = "line1\nline2\nline3";
    let diff = compute_diff(old, new);
    assert!(diff.changed);
    assert_eq!(diff.added_lines, 1);
    assert_eq!(diff.changed_line_ranges.len(), 1);
    assert_eq!(diff.changed_line_ranges[0], LineRange { start: 3, end: 3 });
}

#[test]
fn compute_diff_removals() {
    let old = "line1\nline2\nline3\nline4";
    let new = "line1\nline4";
    let diff = compute_diff(old, new);
    assert!(diff.changed);
    assert_eq!(diff.removed_lines, 3);
}

#[test]
fn compute_diff_both_empty() {
    let diff = compute_diff("", "");
    assert!(!diff.changed);
    assert_eq!(diff.added_lines, 0);
    assert_eq!(diff.removed_lines, 0);
}

#[test]
fn compute_diff_multiple_ranges() {
    let old = "a\nb\nc\nd\ne";
    let new = "a\nB\nc\nD\ne";
    let diff = compute_diff(old, new);
    assert!(diff.changed);
    assert_eq!(diff.changed_line_ranges.len(), 2);
    assert_eq!(diff.changed_line_ranges[0], LineRange { start: 2, end: 2 });
    assert_eq!(diff.changed_line_ranges[1], LineRange { start: 4, end: 4 });
}

#[test]
fn compute_diff_range_runs_to_end() {
    let diff = compute_diff("a\nb", "a\nx\ny\nz");
    assert_eq!(diff.changed_line_ranges, vec![LineRange { start: 2, end: 4 }]);
    assert_eq!(diff.added_lines, 3);
    assert_eq!(diff.removed_lines, 1);
}

#[test]
fn patch_and_reparse_basic() {
    let source = "# Title\n\nhello\n";
    let doc = build_tree(source).unwrap();
    let (patched, new_doc, diff) = patch_and_reparse(&doc, LineRange { start: 3, end: 3 }, "world").unwrap();
    assert!(patched.contains("world"));
    assert!(diff.changed);
    assert_eq!(diff.changed_line_ranges.len(), 1);
    assert!(new_doc.source_text.contains("world"));
}

#[test]
fn patch_and_reparse_no_change() {
    let source = "# Title\n\nbody\n";
    let doc = build_tree(source).unwrap();
    let (_, _, diff) = patch_and_reparse(&doc, LineRange { start: 3, end: 3 }, "body").unwrap();
    assert!(!diff.changed);
}

#[test]
fn last_descendant_line_end_section() {
    let source = "# Title\n\nbody\n\n## Sub\n\nsubbody\n";
    let doc = build_tree(source).unwrap();
    let title_section = doc
        .block_by_id
        .iter()
        .find_map(|bn| match bn {
            BlockNode::Section(s) if s.title == "Title" => Some(s.block.id),
            _ => None,
        })
        .unwrap();
    let end = last_descendant_line_end(&doc, title_section);
    assert!(end >= 6, "Section should extend to include sub-section content, got end={}", end);
}

#[test]
fn last_descendant_line_end_of_root_is_zero() {
    let doc = build_tree("# A\n\ntext\n").unwrap();
    assert_eq!(last_descendant_line_end(&doc, doc.root_id()), 0);
}

#[test]
fn block_content_line_range_paragraph() {
    let source = "# Title\n\nbody text\n";
    let doc = build_tree(source).unwrap();
    let paragraph = doc
        .block_by_id
        .iter()
        .find_map(|bn| match bn {
            BlockNode::Paragraph(p) if p.raw_text.contains("body") => Some(bn.duplicate()),
            _ => None,
        })
        .unwrap();
    let range = block_content_line_range(&doc, &paragraph);
    assert_eq!(range.start, range.end);
}

#[test]
fn collect_descendants_preorder() {
    let doc = build_tree("# A\n\n## B\n\nb\n\n# C\n").unwrap();
    let a = doc
        .block_by_id
        .iter()
        .find_map(|bn| match bn {
            BlockNode::Section(s) if s.title == "A" => Some(s.block.id),
            _ => None,
        })
        .unwrap();
    let desc = collect_descendants(&doc, a);
    let names: Vec<&str> = desc.iter().map(|id| doc.get_block(*id).unwrap().block_type_name()).collect();
    assert_eq!(names, vec!["section", "paragraph"]);
    assert!(collect_descendants(&doc, doc.root_id()).is_empty());
}
