use mdtool::domain::block::Block;
use mdtool::domain::block_node::BlockNode;
use mdtool::domain::container_blocks::{BlockquoteBlock, ListBlock, ListItemBlock, TableBlock};
use mdtool::domain::document::{compute_line_starts, DocumentBlock};
use mdtool::domain::leaf_blocks::{
    CodeBlock, FenceBlock, HtmlBlock, LinkRefDefBlock, ParagraphBlock, ThematicBreakBlock, UnknownBlock,
};
use mdtool::domain::section::{HeadingVariant, SectionBlock};
use mdtool::error::MdtoolError;
use mdtool::primitives::{BlockId, ByteRange, LineRange};
use mdtool::text::parse_usize;
use mdtool::domain::selectors::make_selector;

fn make_block(id: u32) -> Block {
    Block { id: BlockId(id), line_range: LineRange { start: 1, end: 1 }, parent_id: None, children_ids: vec![], byte_range: None }
}

// ---- primitives ----

#[test]
fn block_id_equality() {
    assert_eq!(BlockId(1), BlockId(1));
    assert_ne!(BlockId(1), BlockId(2));
}

#[test]
fn block_id_ordering() {
    assert!(BlockId(0) < BlockId(1));
    assert!(BlockId(100) > BlockId(99));
}

#[test]
fn byte_range_length() {
    let range = ByteRange { start: 10, end: 25 };
    assert_eq!(range.length(), 15);
}

#[test]
fn byte_range_zero_length() {
    let range = ByteRange { start: 10, end: 10 };
    assert_eq!(range.length(), 0);
}

#[test]
fn byte_range_reversed_is_empty() {
    let range = ByteRange { start: 10, end: 4 };
    assert_eq!(range.length(), 0);
}

#[test]
fn line_range_line_count() {
    let range = LineRange { start: 1, end: 5 };
    assert_eq!(range.line_count(), 5);
}

#[test]
fn line_range_single_line() {
    let range = LineRange { start: 3, end: 3 };
    assert_eq!(range.line_count(), 1);
}

#[test]
fn line_range_contains() {
    let range = LineRange { start: 2, end: 5 };
    assert!(!range.contains(1));
    assert!(range.contains(2));
    assert!(range.contains(3));
    assert!(range.contains(5));
    assert!(!range.contains(6));
}

#[test]
fn line_range_empty() {
    let range = LineRange { start: 5, end: 3 };
    assert_eq!(range.line_count(), 0);
}

#[test]
fn line_range_count_matches_contents() {
    let range = LineRange { start: 4, end: 7 };
    let inside = (0..10).filter(|l| range.contains(*l)).count();
    assert_eq!(inside, range.line_count());
    let empty = LineRange { start: 7, end: 4 };
    assert_eq!((0..10).filter(|l| empty.contains(*l)).count(), 0);
}

// ---- block ----

#[test]
fn block_no_children() {
    let block = Block { id: BlockId(0), line_range: LineRange { start: 1, end: 1 }, parent_id: None, children_ids: vec![], byte_range: None };
    assert!(!block.has_children());
}

#[test]
fn block_with_children() {
    let block = Block {
        id: BlockId(0),
        line_range: LineRange { start: 1, end: 5 },
        parent_id: None,
        children_ids: vec![BlockId(1), BlockId(2)],
        byte_range: None,
    };
    assert!(block.has_children());
}

#[test]
fn block_duplicate_keeps_fields() {
    let block = Block {
        id: BlockId(3),
        line_range: LineRange { start: 2, end: 4 },
        parent_id: Some(BlockId(1)),
        children_ids: vec![BlockId(5)],
        byte_range: Some(ByteRange { start: 3, end: 9 }),
    };
    let copy = block.duplicate();
    assert_eq!(copy.id, BlockId(3));
    assert_eq!(copy.parent_id, Some(BlockId(1)));
    assert_eq!(copy.children_ids, vec![BlockId(5)]);
    assert_eq!(copy.byte_range, Some(ByteRange { start: 3, end: 9 }));
}

// ---- block node ----

#[test]
fn block_node_dispatch() {
    let node = BlockNode::Paragraph(ParagraphBlock { block: make_block(1), raw_text: "hello".to_string() });
    assert_eq!(node.block().id, BlockId(1));
    assert_eq!(node.block_type_name(), "paragraph");
}

#[test]
fn block_node_mutable() {
    let mut node = BlockNode::Paragraph(ParagraphBlock { block: make_block(1), raw_text: "hello".to_string() });
    node.block_mut().parent_id = Some(BlockId(0));
    assert_eq!(node.block().parent_id, Some(BlockId(0)));
}

#[test]
fn all_type_names() {
    let cases: Vec<(BlockNode, &'static str)> = vec![
        (BlockNode::Document(DocumentBlock::new("".to_string())), "document"),
        (
            BlockNode::Section(SectionBlock {
                block: make_block(0),
                level: 1,
                title: "Test".to_string(),
                slug: "test".to_string(),
                path: "/Test".to_string(),
                ordinal: 1,
                variant: HeadingVariant::Atx,
            }),
            "section",
        ),
        (BlockNode::Blockquote(BlockquoteBlock { block: make_block(0) }), "blockquote"),
        (BlockNode::List(ListBlock { block: make_block(0), ordered: false, marker: '-', tight: true }), "list"),
        (BlockNode::ListItem(ListItemBlock { block: make_block(0), checked: None, order: None }), "list_item"),
        (
            BlockNode::Table(TableBlock { block: make_block(0), alignments: vec![], header_row: vec![], body_rows: vec![] }),
            "table",
        ),
        (BlockNode::Paragraph(ParagraphBlock { block: make_block(0), raw_text: "".to_string() }), "paragraph"),
        (
            BlockNode::Fence(FenceBlock { block: make_block(0), language: None, info_string: None, raw_text: "".to_string() }),
            "fence",
        ),
        (BlockNode::CodeBlock(CodeBlock { block: make_block(0), raw_text: "".to_string() }), "code_block"),
        (BlockNode::ThematicBreak(ThematicBreakBlock { block: make_block(0) }), "thematic_break"),
        (BlockNode::Html(HtmlBlock { block: make_block(0), raw_text: "".to_string() }), "html"),
        (
            BlockNode::LinkRefDef(LinkRefDefBlock {
                block: make_block(0),
                label: "".to_string(),
                destination: "".to_string(),
                title: None,
            }),
            "link_ref_def",
        ),
        (BlockNode::Unknown(UnknownBlock { block: make_block(0), raw_text: "".to_string() }), "unknown"),
    ];
    for (node, expected_name) in cases {
        assert_eq!(node.block_type_name(), expected_name);
    }
}

#[test]
fn block_node_duplicate_keeps_content() {
    let node = BlockNode::Fence(FenceBlock {
        block: make_block(4),
        language: Some("rust".to_string()),
        info_string: Some("rust no_run".to_string()),
        raw_text: "fn main() {}".to_string(),
    });
    match node.duplicate() {
        BlockNode::Fence(f) => {
            assert_eq!(f.block.id, BlockId(4));
            assert_eq!(f.language.as_deref(), Some("rust"));
            assert_eq!(f.info_string.as_deref(), Some("rust no_run"));
            assert_eq!(f.raw_text, "fn main() {}");
        }
        _ => panic!("expected a fence"),
    }
}

// ---- document ----

#[test]
fn new_document() {
    let doc = DocumentBlock::new("hello\nworld".to_string());
    assert_eq!(doc.root_id(), BlockId(0));
    assert_eq!(doc.line_count(), 2);
}

#[test]
fn empty_document() {
    let doc = DocumentBlock::new("".to_string());
    assert_eq!(doc.line_count(), 0);
}

#[test]
fn new_document_root_block() {
    let doc = DocumentBlock::new("a\nbc\n".to_string());
    assert_eq!(doc.block.line_range, LineRange { start: 1, end: 2 });
    assert_eq!(doc.block.byte_range, Some(ByteRange { start: 0, end: 5 }));
    assert_eq!(doc.line_starts, vec![0, 2, 5]);
    assert_eq!(doc.total_blocks(), 1);
    let empty = DocumentBlock::new(String::new());
    assert_eq!(empty.block.byte_range, None);
}

#[test]
fn source_text_for_range() {
    let doc = DocumentBlock::new("line1\nline2\nline3".to_string());
    let text = doc.source_text_for_range(LineRange { start: 2, end: 3 });
    assert_eq!(text, "line2\nline3");
}

#[test]
fn source_text_for_single_line() {
    let doc = DocumentBlock::new("line1\nline2\nline3".to_string());
    let text = doc.source_text_for_range(LineRange { start: 1, end: 1 });
    assert_eq!(text, "line1");
}

#[test]
fn source_text_for_range_out_of_bounds() {
    let doc = DocumentBlock::new("line1\nline2".to_string());
    assert_eq!(doc.source_text_for_range(LineRange { start: 5, end: 7 }), "");
    assert_eq!(doc.source_text_for_range(LineRange { start: 2, end: 9 }), "line2");
    assert_eq!(doc.source_text_for_range(LineRange { start: 2, end: 1 }), "");
    assert_eq!(doc.source_text_for_range(LineRange { start: 0, end: 1 }), "");
}

#[test]
fn compute_line_starts_basic() {
    let starts = compute_line_starts("hello\nworld\n");
    assert_eq!(starts, vec![0, 6, 12]);
}

#[test]
fn compute_line_starts_empty() {
    let starts = compute_line_starts("");
    assert_eq!(starts, vec![0]);
}

#[test]
fn compute_line_starts_multibyte() {
    let starts = compute_line_starts("é\nx");
    assert_eq!(starts, vec![0, 3]);
}

#[test]
fn get_block_finds_pushed_node() {
    let mut doc = DocumentBlock::new("a".to_string());
    doc.block_by_id.push(BlockNode::Paragraph(ParagraphBlock { block: make_block(7), raw_text: "a".to_string() }));
    assert!(doc.get_block(BlockId(7)).is_some());
    assert!(doc.get_block(BlockId(8)).is_none());
    assert_eq!(doc.total_blocks(), 2);
}

// ---- errors ----

#[test]
fn error_display_parse() {
    let err = MdtoolError::Parse("bad input".to_string());
    assert_eq!(err.message(), "parse error: bad input");
}

#[test]
fn error_display_block_not_found() {
    let err = MdtoolError::BlockNotFound { selector: "path=/Foo".to_string() };
    assert!(err.message().contains("path=/Foo"));
}

#[test]
fn error_display_ambiguous() {
    let err = MdtoolError::AmbiguousBlock { selector: "title=Foo".to_string(), n: 3 };
    assert!(err.message().contains("3 matches"));
}

#[test]
fn error_messages_of_each_kind() {
    assert_eq!(MdtoolError::Validation("v".to_string()).message(), "validation error: v");
    assert_eq!(
        MdtoolError::AmbiguousBlock { selector: "level=1".to_string(), n: 12 }.message(),
        "ambiguous block selector: 12 matches for level=1"
    );
    assert_eq!(MdtoolError::BlockNotFound { selector: "x".to_string() }.message(), "block not found for selector: x");
    assert_eq!(MdtoolError::Transformation("t".to_string()).message(), "transformation error: t");
    assert_eq!(MdtoolError::AsciiLayout("a".to_string()).message(), "ASCII layout error: a");
    assert_eq!(MdtoolError::Policy("p".to_string()).message(), "policy violation: p");
    assert_eq!(MdtoolError::Io("disk".to_string()).message(), "disk");
}

#[test]
fn make_selector_prefers_id_then_path() {
    let s = make_selector(Some("/A".to_string()), Some(3));
    assert_eq!(s.id, Some(mdtool::primitives::BlockId(3)));
    assert!(s.path.is_none());
    let s = make_selector(Some("/A".to_string()), None);
    assert_eq!(s.path.as_deref(), Some("/A"));
    assert!(s.id.is_none());
    assert!(make_selector(None, None).is_empty());
}

#[test]
fn line_range_label_round_trip() {
    assert_eq!(LineRange { start: 7, end: 7 }.label(), "7");
    assert_eq!(LineRange { start: 3, end: 12 }.label(), "3-12");
    assert_eq!(LineRange::from_label("3-12"), Some(LineRange { start: 3, end: 12 }));
    assert_eq!(LineRange::from_label("42"), Some(LineRange { start: 42, end: 42 }));
    assert_eq!(LineRange::from_label("+4-+5"), Some(LineRange { start: 4, end: 5 }));
    assert_eq!(LineRange::from_label("x"), None);
    assert_eq!(LineRange::from_label("1-"), None);
    assert_eq!(LineRange::from_label(""), None);
}

#[test]
fn parse_usize_matches_std() {
    for s in ["0", "17", "+9", "", "+", "-1", "1a", "18446744073709551615", "18446744073709551616", "007"] {
        let cs: Vec<char> = s.chars().collect();
        assert_eq!(parse_usize(&cs), s.parse::<usize>().ok(), "input {:?}", s);
    }
}
