use mdtool::builder::tree_builder::build_tree;
use mdtool::domain::block::Block;
use mdtool::domain::block_node::BlockNode;
use mdtool::domain::document::DocumentBlock;
use mdtool::domain::leaf_blocks::FenceBlock;
use mdtool::domain::section::{HeadingVariant, SectionBlock};
use mdtool::error::{Diagnostic, Severity};
use mdtool::primitives::{BlockId, LineRange};
use mdtool::processing::validate::validate;

fn make_block(id: u32, start: usize, end: usize) -> Block {
    Block { id: BlockId(id), line_range: LineRange { start, end }, parent_id: None, children_ids: vec![], byte_range: None }
}

fn section(id: u32, start: usize, title: &str, path: &str, level: u8) -> SectionBlock {
    SectionBlock {
        block: make_block(id, start, start),
        level,
        title: title.to_string(),
        slug: title.to_lowercase(),
        path: path.to_string(),
        ordinal: 1,
        variant: HeadingVariant::Atx,
    }
}

fn fence(start: usize, end: usize, raw: &str) -> BlockNode {
    BlockNode::Fence(FenceBlock { block: make_block(1, start, end), language: None, info_string: None, raw_text: raw.to_string() })
}

#[test]
fn validate_empty_document() {
    let doc = DocumentBlock::new(String::new());
    let diags = validate(&doc);
    assert!(diags.is_empty());
}

#[test]
fn validate_duplicate_section_path() {
    let mut doc = DocumentBlock::new("# A\n## B\n# A".to_string());
    doc.block_by_id.push(BlockNode::Section(section(1, 1, "A", "/A", 1)));
    doc.block_by_id.push(BlockNode::Section(section(2, 3, "A", "/A", 1)));
    let diags = validate(&doc);
    let dup_diags: Vec<_> = diags.iter().filter(|d| d.code == "DUPLICATE_SECTION_PATH").collect();
    assert_eq!(dup_diags.len(), 1);
    assert_eq!(dup_diags[0].severity, Severity::Warning);
}

#[test]
fn validate_duplicate_section_path_message() {
    let mut doc = DocumentBlock::new("# A\n## B\n# A".to_string());
    doc.block_by_id.push(BlockNode::Section(section(1, 1, "A", "/A", 1)));
    doc.block_by_id.push(BlockNode::Section(section(2, 3, "A", "/A", 1)));
    let diags = validate(&doc);
    let dup = diags.iter().find(|d| d.code == "DUPLICATE_SECTION_PATH").unwrap();
    assert_eq!(dup.message, "Duplicate section path '/A' with ordinal 1 (occurrence 2)");
    assert_eq!(dup.line, Some(3));
    assert_eq!(dup.suggested_fix.as_deref(), Some("Rename or renumber section 'A' to disambiguate"));
}

#[test]
fn validate_no_duplicate_different_ordinals() {
    let mut doc = DocumentBlock::new("# A\n## A".to_string());
    doc.block_by_id.push(BlockNode::Section(section(1, 1, "A", "/A", 1)));
    doc.block_by_id.push(BlockNode::Section(section(2, 2, "A", "/A/A", 2)));
    let diags = validate(&doc);
    let dup_diags: Vec<_> = diags.iter().filter(|d| d.code == "DUPLICATE_SECTION_PATH").collect();
    assert!(dup_diags.is_empty());
}

#[test]
fn validate_unclosed_fence() {
    let source = "```\nlet x = 1;\nlet y = 2;";
    let mut doc = DocumentBlock::new(source.to_string());
    doc.block_by_id.push(fence(1, 3, "```\nlet x = 1;\nlet y = 2;"));
    let diags = validate(&doc);
    let unclosed: Vec<_> = diags.iter().filter(|d| d.code == "UNCLOSED_FENCE").collect();
    assert_eq!(unclosed.len(), 1);
    assert_eq!(unclosed[0].severity, Severity::Error);
    assert_eq!(unclosed[0].line, Some(1));
}

#[test]
fn validate_unclosed_fence_suggests_marker() {
    let mut doc = DocumentBlock::new("````\ncode".to_string());
    doc.block_by_id.push(fence(1, 2, "````\ncode"));
    let diags = validate(&doc);
    let d = diags.iter().find(|d| d.code == "UNCLOSED_FENCE").unwrap();
    assert_eq!(d.message, "Unclosed fenced code block starting at line 1");
    assert_eq!(d.suggested_fix.as_deref(), Some("Add closing fence '````' at the end of the code block"));
}

#[test]
fn validate_closed_fence_no_diagnostic() {
    let source = "```\nlet x = 1;\n```";
    let mut doc = DocumentBlock::new(source.to_string());
    doc.block_by_id.push(fence(1, 3, "```\nlet x = 1;\n```"));
    let diags = validate(&doc);
    let unclosed: Vec<_> = diags.iter().filter(|d| d.code == "UNCLOSED_FENCE").collect();
    assert!(unclosed.is_empty());
}

#[test]
fn validate_short_closer_does_not_close() {
    let mut doc = DocumentBlock::new("````\ncode\n```".to_string());
    doc.block_by_id.push(fence(1, 3, "````\ncode\n```"));
    let diags = validate(&doc);
    assert_eq!(diags.iter().filter(|d| d.code == "UNCLOSED_FENCE").count(), 1);
}

#[test]
fn validate_unclosed_tilde_fence() {
    let source = "~~~\ncode here";
    let mut doc = DocumentBlock::new(source.to_string());
    doc.block_by_id.push(fence(1, 2, "~~~\ncode here"));
    let diags = validate(&doc);
    let unclosed: Vec<_> = diags.iter().filter(|d| d.code == "UNCLOSED_FENCE").collect();
    assert_eq!(unclosed.len(), 1);
}

#[test]
fn validate_empty_section() {
    let mut doc = DocumentBlock::new("# Empty".to_string());
    doc.block_by_id.push(BlockNode::Section(SectionBlock {
        block: make_block(1, 1, 1),
        level: 1,
        title: "Empty".to_string(),
        slug: "empty".to_string(),
        path: "/Empty".to_string(),
        ordinal: 1,
        variant: HeadingVariant::Atx,
    }));
    let diags = validate(&doc);
    let empty: Vec<_> = diags.iter().filter(|d| d.code == "EMPTY_SECTION").collect();
    assert_eq!(empty.len(), 1);
    assert_eq!(empty[0].severity, Severity::Warning);
    assert!(empty[0].message.contains("Empty"));
}

#[test]
fn validate_empty_section_message() {
    let mut doc = DocumentBlock::new("# Empty".to_string());
    doc.block_by_id.push(BlockNode::Section(section(1, 1, "Empty", "/empty", 1)));
    let diags = validate(&doc);
    assert_eq!(diags[0].message, "Section 'Empty' at line 1 has no content");
    assert_eq!(diags[0].suggested_fix.as_deref(), Some("Add content under heading 'Empty' or remove the empty section"));
}

#[test]
fn validate_non_empty_section_no_diagnostic() {
    let mut doc = DocumentBlock::new("# Not Empty\ncontent".to_string());
    doc.block_by_id.push(BlockNode::Section(SectionBlock {
        block: Block {
            id: BlockId(1),
            line_range: LineRange { start: 1, end: 2 },
            parent_id: None,
            children_ids: vec![BlockId(2)],
            byte_range: None,
        },
        level: 1,
        title: "Not Empty".to_string(),
        slug: "not-empty".to_string(),
        path: "/Not Empty".to_string(),
        ordinal: 1,
        variant: HeadingVariant::Atx,
    }));
    let diags = validate(&doc);
    let empty: Vec<_> = diags.iter().filter(|d| d.code == "EMPTY_SECTION").collect();
    assert!(empty.is_empty());
}

#[test]
fn validate_collects_existing_diagnostics() {
    let mut doc = DocumentBlock::new("# A\n### Jump".to_string());
    doc.diagnostics.push(Diagnostic {
        code: "HEADING_LEVEL_JUMP".to_string(),
        severity: Severity::Warning,
        message: "Heading level jumped from 1 to 3".to_string(),
        line: Some(2),
        column: None,
        line_range: Some(LineRange { start: 2, end: 2 }),
        suggested_fix: None,
    });
    let diags = validate(&doc);
    let jumps: Vec<_> = diags.iter().filter(|d| d.code == "HEADING_LEVEL_JUMP").collect();
    assert_eq!(jumps.len(), 1);
}

#[test]
fn validate_built_document() {
    let doc = build_tree("# A\n\n### B\n\ntext\n\n# C\n").unwrap();
    let diags = validate(&doc);
    let codes: Vec<&str> = diags.iter().map(|d| d.code.as_str()).collect();
    assert!(codes.contains(&"HEADING_LEVEL_JUMP"));
    assert!(codes.contains(&"EMPTY_SECTION"));
}
