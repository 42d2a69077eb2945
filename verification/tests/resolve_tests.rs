use mdtool::builder::tree_builder::build_tree;
use mdtool::domain::block_node::BlockNode;
use mdtool::domain::selectors::BlockSelector;
use mdtool::error::MdtoolError;
use mdtool::ops::resolve::resolve_selector;
use mdtool::primitives::BlockId;

#[test]
fn empty_selector_resolves_to_root() {
    let doc = build_tree("# Title\n\nbody\n").unwrap();
    let selector = BlockSelector::default();
    let result = resolve_selector(&doc, &selector).unwrap();
    assert_eq!(result, doc.root_id());
}

#[test]
fn resolve_by_id() {
    let doc = build_tree("# Title\n\nbody\n").unwrap();
    let selector = BlockSelector::from_id(BlockId(1));
    let result = resolve_selector(&doc, &selector).unwrap();
    assert_eq!(result, BlockId(1));
}

#[test]
fn resolve_by_id_not_found() {
    let doc = build_tree("# Title\n\nbody\n").unwrap();
    let selector = BlockSelector::from_id(BlockId(999));
    let err = resolve_selector(&doc, &selector).unwrap_err();
    assert!(matches!(err, MdtoolError::BlockNotFound { .. }));
}

#[test]
fn resolve_by_id_not_found_message() {
    let doc = build_tree("# Title\n\nbody\n").unwrap();
    let err = resolve_selector(&doc, &BlockSelector::from_id(BlockId(999))).unwrap_err();
    match err {
        MdtoolError::BlockNotFound { selector } => assert_eq!(selector, "id=BlockId(999)"),
        _ => panic!("expected BlockNotFound"),
    }
}

#[test]
fn resolve_by_path() {
    let doc = build_tree("# Architecture\n\n## Parser\n\nbody\n").unwrap();
    let selector = BlockSelector::from_path("/architecture/parser");
    let result = resolve_selector(&doc, &selector).unwrap();
    let bn = doc.get_block(result).unwrap();
    match bn {
        BlockNode::Section(s) => assert_eq!(s.title, "Parser"),
        _ => panic!("Expected a Section block"),
    }
}

#[test]
fn resolve_by_path_not_found() {
    let doc = build_tree("# Title\n\nbody\n").unwrap();
    let selector = BlockSelector::from_path("/nonexistent");
    let err = resolve_selector(&doc, &selector).unwrap_err();
    assert!(matches!(err, MdtoolError::BlockNotFound { .. }));
}

#[test]
fn resolve_by_title() {
    let doc = build_tree("# Architecture\n\n## Parser\n\nbody\n").unwrap();
    let selector = BlockSelector { title: Some("Parser".to_string()), ..Default::default() };
    let result = resolve_selector(&doc, &selector).unwrap();
    let bn = doc.get_block(result).unwrap();
    match bn {
        BlockNode::Section(s) => assert_eq!(s.title, "Parser"),
        _ => panic!("Expected a Section block"),
    }
}

#[test]
fn resolve_by_level() {
    let doc = build_tree("# A\n\n## B\n\n### C\n").unwrap();
    let selector = BlockSelector { level: Some(2), ..Default::default() };
    let result = resolve_selector(&doc, &selector).unwrap();
    let bn = doc.get_block(result).unwrap();
    match bn {
        BlockNode::Section(s) => assert_eq!(s.level, 2),
        _ => panic!("Expected a Section block"),
    }
}

#[test]
fn resolve_by_block_type() {
    let doc = build_tree("# Title\n\nparagraph text\n\n```\ncode\n```\n").unwrap();
    let selector = BlockSelector { block_type: Some("fence".to_string()), ..Default::default() };
    let result = resolve_selector(&doc, &selector).unwrap();
    let bn = doc.get_block(result).unwrap();
    assert_eq!(bn.block_type_name(), "fence");
}

#[test]
fn resolve_no_match_returns_block_not_found() {
    let doc = build_tree("# Title\n\nbody\n").unwrap();
    let selector = BlockSelector { title: Some("Nonexistent".to_string()), ..Default::default() };
    let err = resolve_selector(&doc, &selector).unwrap_err();
    assert!(matches!(err, MdtoolError::BlockNotFound { .. }));
}

#[test]
fn resolve_no_match_summary_message() {
    let doc = build_tree("# Title\n\nbody\n").unwrap();
    let selector = BlockSelector {
        title: Some("X".to_string()),
        level: Some(3),
        block_index: Some(2),
        ..Default::default()
    };
    match resolve_selector(&doc, &selector).unwrap_err() {
        MdtoolError::BlockNotFound { selector } => assert_eq!(selector, "title=X, level=3, block_index=2"),
        _ => panic!("expected BlockNotFound"),
    }
}

#[test]
fn resolve_ambiguous_without_allow_first() {
    let doc = build_tree("# A\n\na\n\n# B\n\nb\n").unwrap();
    let selector = BlockSelector { level: Some(1), ..Default::default() };
    let err = resolve_selector(&doc, &selector).unwrap_err();
    assert!(matches!(err, MdtoolError::AmbiguousBlock { .. }));
}

#[test]
fn resolve_ambiguous_reports_count() {
    let doc = build_tree("# A\n\na\n\n# B\n\nb\n\n# C\n").unwrap();
    let selector = BlockSelector { level: Some(1), ..Default::default() };
    match resolve_selector(&doc, &selector).unwrap_err() {
        MdtoolError::AmbiguousBlock { selector, n } => {
            assert_eq!(n, 3);
            assert_eq!(selector, "level=1");
        }
        _ => panic!("expected AmbiguousBlock"),
    }
}

#[test]
fn resolve_ambiguous_with_allow_first() {
    let doc = build_tree("# A\n\na\n\n# B\n\nb\n").unwrap();
    let selector = BlockSelector { level: Some(1), allow_first_match: true, ..Default::default() };
    let result = resolve_selector(&doc, &selector).unwrap();
    let bn = doc.get_block(result).unwrap();
    match bn {
        BlockNode::Section(s) => assert_eq!(s.title, "A"),
        _ => panic!("Expected a Section block"),
    }
}

#[test]
fn resolve_combined_title_and_level() {
    let doc = build_tree("# A\n\n## B\n\n### B\n").unwrap();
    let selector = BlockSelector { title: Some("B".to_string()), level: Some(3), ..Default::default() };
    let result = resolve_selector(&doc, &selector).unwrap();
    let bn = doc.get_block(result).unwrap();
    match bn {
        BlockNode::Section(s) => {
            assert_eq!(s.title, "B");
            assert_eq!(s.level, 3);
        }
        _ => panic!("Expected a Section block"),
    }
}

#[test]
fn selector_constructors() {
    let s = BlockSelector::from_path("/a");
    assert_eq!(s.path.as_deref(), Some("/a"));
    assert!(s.id.is_none());
    assert!(!s.is_empty());
    assert!(BlockSelector::default().is_empty());
    let only_first = BlockSelector { allow_first_match: true, ..Default::default() };
    assert!(only_first.is_empty());
    assert_eq!(BlockSelector::from_id(BlockId(4)).id, Some(BlockId(4)));
}
