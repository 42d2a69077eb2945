use mdtool::ascii::model::AsciiMode;
use mdtool::domain::selectors::BlockSelector;
use mdtool::mcp::schema::{default_max_depth, default_view, ReadBlockRequest};
use mdtool::mcp::tools::{plan_read_block, MdtoolServer, ReadBlockPlan};

fn request(view: &str) -> ReadBlockRequest {
    ReadBlockRequest {
        file_path: "doc.md".to_string(),
        selector: None,
        view: view.to_string(),
        block_type: None,
        depth: None,
        include_text: None,
        limit: None,
        offset: None,
    }
}

#[test]
fn request_defaults() {
    assert_eq!(default_max_depth(), 6);
    assert_eq!(default_view(), "block");
    assert_eq!(AsciiMode::default(), AsciiMode::FormatOnly);
}

#[test]
fn server_uses_default_policy() {
    let srv = MdtoolServer::new();
    assert_eq!(srv.block_service.policy.allowed_roots, vec![".".to_string()]);
    assert!(!srv.ascii_service.policy.read_only);
}

#[test]
fn plan_block_view_by_default() {
    match plan_read_block(request("block")) {
        ReadBlockPlan::Block { selector, include_text } => {
            assert!(selector.is_empty());
            assert!(include_text);
        }
        other => panic!("unexpected plan: {:?}", other),
    }
    assert!(matches!(plan_read_block(request("unknown")), ReadBlockPlan::Block { .. }));
}

#[test]
fn plan_tree_view_defaults_to_whole_subtree() {
    let mut req = request("tree");
    req.include_text = Some(false);
    match plan_read_block(req) {
        ReadBlockPlan::Tree { depth, include_text, .. } => {
            assert_eq!(depth, -1);
            assert!(!include_text);
        }
        other => panic!("unexpected plan: {:?}", other),
    }
}

#[test]
fn plan_text_children_and_types() {
    let mut req = request("text");
    req.selector = Some(BlockSelector::from_path("/A"));
    match plan_read_block(req) {
        ReadBlockPlan::Text { selector } => assert_eq!(selector.path.as_deref(), Some("/A")),
        other => panic!("unexpected plan: {:?}", other),
    }
    assert!(matches!(plan_read_block(request("children")), ReadBlockPlan::Children { .. }));
    match plan_read_block(request("by_type")) {
        ReadBlockPlan::ByType { block_type } => assert_eq!(block_type, "fence"),
        other => panic!("unexpected plan: {:?}", other),
    }
    let mut req = request("by_type");
    req.block_type = Some("table".to_string());
    match plan_read_block(req) {
        ReadBlockPlan::ByType { block_type } => assert_eq!(block_type, "table"),
        other => panic!("unexpected plan: {:?}", other),
    }
}
