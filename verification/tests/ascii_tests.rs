use mdtool::ascii::detect::detect_ascii_blocks;
use mdtool::ascii::format::{format_block, is_box_border};
use mdtool::ascii::model::{AsciiBlock, AsciiMode};
use mdtool::domain::block::Block;
use mdtool::domain::block_node::BlockNode;
use mdtool::domain::document::DocumentBlock;
use mdtool::domain::leaf_blocks::FenceBlock;
use mdtool::primitives::{BlockId, LineRange};

fn make_plain_block(id: u32) -> Block {
    Block { id: BlockId(id), line_range: LineRange { start: 1, end: 1 }, parent_id: None, children_ids: vec![], byte_range: None }
}

fn make_doc_with_fences(fences: Vec<(u32, Option<&str>, &str)>) -> DocumentBlock {
    let mut doc = DocumentBlock::new(String::new());
    for (id, info_string, raw_text) in fences {
        let node = BlockNode::Fence(FenceBlock {
            block: make_plain_block(id),
            language: info_string.map(|s| s.split_whitespace().next().unwrap_or(s).to_string()),
            info_string: info_string.map(|s| s.to_string()),
            raw_text: raw_text.to_string(),
        });
        doc.block_by_id.push(node);
    }
    doc
}

#[test]
fn detect_finds_ascii_fences() {
    let doc = make_doc_with_fences(vec![(1, Some("ascii"), "hello"), (2, Some("box"), "+---+\n| a |\n+---+"), (3, Some("diagram"), "a -> b")]);
    let blocks = detect_ascii_blocks(&doc);
    assert_eq!(blocks.len(), 3);
    let ids: Vec<BlockId> = blocks.iter().map(|b| b.block_id).collect();
    assert!(ids.contains(&BlockId(1)));
    assert!(ids.contains(&BlockId(2)));
    assert!(ids.contains(&BlockId(3)));
}

#[test]
fn detect_skips_other_fences() {
    let doc = make_doc_with_fences(vec![(1, Some("rust"), "fn main() {}"), (2, Some("python"), "print('hi')"), (3, Some("ascii"), "hello")]);
    let blocks = detect_ascii_blocks(&doc);
    assert_eq!(blocks.len(), 1);
    assert_eq!(blocks[0].block_id, BlockId(3));
}

#[test]
fn detect_skips_no_info_string() {
    let doc = make_doc_with_fences(vec![(1, None, "some code")]);
    let blocks = detect_ascii_blocks(&doc);
    assert!(blocks.is_empty());
}

#[test]
fn detect_case_insensitive() {
    let doc = make_doc_with_fences(vec![(1, Some("ASCII"), "hello"), (2, Some("Box"), "+---+"), (3, Some("Diagram"), "a->b")]);
    let blocks = detect_ascii_blocks(&doc);
    assert_eq!(blocks.len(), 3);
}

#[test]
fn detect_computes_indent() {
    let doc = make_doc_with_fences(vec![(1, Some("ascii"), "  line1\n    line2\n  line3")]);
    let blocks = detect_ascii_blocks(&doc);
    assert_eq!(blocks.len(), 1);
    assert_eq!(blocks[0].indent, 2);
}

#[test]
fn detect_min_indent_all_empty() {
    let doc = make_doc_with_fences(vec![(1, Some("ascii"), "\n\n")]);
    let blocks = detect_ascii_blocks(&doc);
    assert_eq!(blocks[0].indent, 0);
}

#[test]
fn detect_counts_tabs_as_indent() {
    let doc = make_doc_with_fences(vec![(1, Some("ascii"), "\t x\n\t\t y")]);
    let blocks = detect_ascii_blocks(&doc);
    assert_eq!(blocks[0].indent, 2);
    assert_eq!(blocks[0].lines, vec!["\t x".to_string(), "\t\t y".to_string()]);
}

fn make_block(id: u32, lines: Vec<&str>) -> AsciiBlock {
    AsciiBlock { block_id: BlockId(id), info_string: "ascii".to_string(), indent: 0, lines: lines.iter().map(|s| s.to_string()).collect() }
}

#[test]
fn format_only_tabs_to_spaces() {
    let block = make_block(1, vec!["\thello", "\t\tworld"]);
    let edit = format_block(&block, AsciiMode::FormatOnly);
    assert!(edit.changed);
    assert_eq!(edit.after[0], "hello");
    assert_eq!(edit.after[1], "    world");
}

#[test]
fn format_only_trailing_trim() {
    let block = make_block(1, vec!["hello   ", "world  "]);
    let edit = format_block(&block, AsciiMode::FormatOnly);
    assert!(edit.changed);
    assert_eq!(edit.after[0], "hello");
    assert_eq!(edit.after[1], "world");
}

#[test]
fn format_only_indent_normalization() {
    let block = make_block(1, vec!["    line1", "        line2", "    line3"]);
    let edit = format_block(&block, AsciiMode::FormatOnly);
    assert!(edit.changed);
    assert_eq!(edit.after[0], "line1");
    assert_eq!(edit.after[1], "    line2");
    assert_eq!(edit.after[2], "line3");
}

#[test]
fn format_only_unchanged() {
    let block = make_block(1, vec!["hello", "world"]);
    let edit = format_block(&block, AsciiMode::FormatOnly);
    assert!(!edit.changed);
}

#[test]
fn format_only_idempotent() {
    let block = make_block(1, vec!["\thello   ", "  \t  world"]);
    let edit1 = format_block(&block, AsciiMode::FormatOnly);
    let block2 = AsciiBlock { block_id: block.block_id, info_string: block.info_string.clone(), indent: 0, lines: edit1.after.clone() };
    let edit2 = format_block(&block2, AsciiMode::FormatOnly);
    assert!(!edit2.changed, "Second application should not change anything");
    assert_eq!(edit1.after, edit2.after);
}

#[test]
fn repair_safe_aligns_simple_box() {
    let block = make_block(1, vec!["+---+", "| a |", "+---+", "| b   |", "+-----+"]);
    let edit = format_block(&block, AsciiMode::RepairSafe);
    assert!(edit.changed);
    let widths: Vec<usize> = edit.after.iter().map(|l| l.chars().count()).collect();
    let max_w = *widths.iter().max().unwrap();
    for (i, w) in widths.iter().enumerate() {
        assert_eq!(*w, max_w, "Line {} has width {} but expected {}", i, w, max_w);
    }
}

#[test]
fn repair_safe_exact_alignment() {
    let block = make_block(1, vec!["+==+", "| a |", "+----+"]);
    let edit = format_block(&block, AsciiMode::RepairSafe);
    assert_eq!(edit.after, vec!["+====+".to_string(), "| a | ".to_string(), "+----+".to_string()]);
    assert!(edit.diagnostics.is_empty());
}

#[test]
fn repair_safe_low_confidence_warning() {
    let block = make_block(1, vec!["+---+", "some random text", "more text here", "even more text", "and more"]);
    let edit = format_block(&block, AsciiMode::RepairSafe);
    assert!(edit.diagnostics.iter().any(|d| d.code == "ASCII_LOW_CONFIDENCE"), "Expected ASCII_LOW_CONFIDENCE warning");
}

#[test]
fn repair_safe_low_confidence_message() {
    let block = make_block(1, vec!["+---+", "text", "", "more"]);
    let edit = format_block(&block, AsciiMode::RepairSafe);
    assert_eq!(edit.diagnostics.len(), 1);
    assert_eq!(edit.diagnostics[0].message, "Box border detection ambiguous (1/3 non-empty lines are borders). Skipping repair.");
}

#[test]
fn repair_safe_no_borders_no_warning() {
    let block = make_block(1, vec!["hello", "world"]);
    let edit = format_block(&block, AsciiMode::RepairSafe);
    assert!(!edit.diagnostics.iter().any(|d| d.code == "ASCII_LOW_CONFIDENCE"));
}

#[test]
fn repair_aggressive_stub() {
    let block = make_block(1, vec!["  hello  "]);
    let edit = format_block(&block, AsciiMode::RepairAggressive);
    assert!(
        edit.diagnostics.iter().any(|d| d.code == "ASCII_AGGRESSIVE_NOT_IMPLEMENTED"),
        "Expected ASCII_AGGRESSIVE_NOT_IMPLEMENTED info diagnostic"
    );
    assert!(edit.changed);
    assert_eq!(edit.after[0], "hello");
}

#[test]
fn repair_aggressive_unchanged() {
    let block = make_block(1, vec!["hello", "world"]);
    let edit = format_block(&block, AsciiMode::RepairAggressive);
    assert!(!edit.changed);
    assert_eq!(edit.diagnostics.len(), 1);
    assert_eq!(edit.diagnostics[0].code, "ASCII_AGGRESSIVE_NOT_IMPLEMENTED");
}

#[test]
fn is_box_border_valid() {
    assert!(is_box_border("+---+"));
    assert!(is_box_border("+===+"));
    assert!(is_box_border("+---+---+"));
    assert!(is_box_border("+=====+"));
    assert!(is_box_border("  +---+  "));
}

#[test]
fn is_box_border_invalid() {
    assert!(!is_box_border(""));
    assert!(!is_box_border("++not a border"));
    assert!(!is_box_border("| text |"));
    assert!(!is_box_border("hello"));
    assert!(!is_box_border("+"));
    assert!(!is_box_border("++"));
}

#[test]
fn ascii_mode_default_is_format_only() {
    assert_eq!(AsciiMode::default(), AsciiMode::FormatOnly);
}

#[test]
fn repair_safe_low_confidence_leaves_block_unchanged() {
    let block = make_block(1, vec!["x "]);
    let edit = format_block(&block, AsciiMode::RepairSafe);
    assert!(!edit.changed);
    assert_eq!(edit.after, vec!["x ".to_string()]);
    assert!(edit.diagnostics.is_empty());
}
