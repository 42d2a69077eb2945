use mdtool::ascii::model::AsciiMode;
use mdtool::domain::policy::FilesystemPolicy;
use mdtool::domain::selectors::{BlockSelector, InsertPosition};
use mdtool::error::MdtoolError;
use mdtool::infrastructure::policy_guard::{check_path, check_write_allowed, normalize_path};
use mdtool::primitives::{BlockId, LineRange};
use mdtool::services::ascii_service::AsciiService;
use mdtool::services::block_service::BlockService;
use mdtool::services::parse_service::ParseService;

fn service() -> BlockService {
    BlockService::new(FilesystemPolicy::default())
}

fn read_only_service() -> BlockService {
    let mut policy = FilesystemPolicy::default();
    policy.read_only = true;
    BlockService::new(policy)
}

fn section_selector(title: &str) -> BlockSelector {
    let mut sel = BlockSelector::default();
    sel.title = Some(title.to_string());
    sel
}

#[test]
fn default_policy_allows_working_directory() {
    let p = FilesystemPolicy::default();
    assert_eq!(p.allowed_roots, vec![".".to_string()]);
    assert!(!p.read_only);
    assert!(p.allow_overwrite);
    assert!(!p.create_backups);
}

#[test]
fn replace_block_dry_run_returns_no_text() {
    let text = "# Title\n\nold\n";
    let (resp, write) = service()
        .replace_block(text, &section_selector("Title"), "# Title\n\nnew", true)
        .unwrap();
    assert!(resp.success);
    assert!(resp.changed);
    assert!(resp.diff_summary.is_some());
    assert!(resp.content.is_none());
    assert!(write.is_none());
}

#[test]
fn replace_block_returns_text_to_write() {
    let text = "# Title\n\nold\n";
    let (resp, write) = service()
        .replace_block(text, &section_selector("Title"), "# Title\n\nnew", false)
        .unwrap();
    assert!(resp.changed);
    assert_eq!(write.unwrap(), "# Title\n\nnew\n");
}

#[test]
fn read_only_policy_refuses_writes() {
    let text = "# Title\n\nold\n";
    let err = read_only_service()
        .replace_block(text, &section_selector("Title"), "# Title\n\nnew", false)
        .unwrap_err();
    match err {
        MdtoolError::Policy(m) => assert_eq!(m, "Write operations not allowed (read-only policy)"),
        other => panic!("unexpected error: {:?}", other),
    }
}

#[test]
fn read_only_policy_allows_dry_runs() {
    let text = "# Title\n\nold\n";
    let (resp, write) = read_only_service()
        .replace_block(text, &section_selector("Title"), "# Title\n\nnew", true)
        .unwrap();
    assert!(resp.changed);
    assert!(write.is_none());
}

#[test]
fn check_write_allowed_follows_policy() {
    assert!(check_write_allowed(&FilesystemPolicy::default()).is_ok());
    let mut p = FilesystemPolicy::default();
    p.read_only = true;
    assert!(check_write_allowed(&p).is_err());
}

#[test]
fn insert_block_after_section() {
    let text = "# A\n\na\n";
    let (_, write) = service()
        .insert_block(text, &section_selector("A"), "tail", InsertPosition::After, false)
        .unwrap();
    assert_eq!(write.unwrap(), "# A\n\na\ntail\n");
}

#[test]
fn missing_block_is_reported() {
    let err = service()
        .delete_block("# A\n", &section_selector("Nope"), true)
        .unwrap_err();
    assert!(matches!(err, MdtoolError::BlockNotFound { .. }));
}

#[test]
fn read_outline_lists_sections() {
    let (entries, diags) = service().read_outline("# A\n\n## B\n\n### C\n", 2, false).unwrap();
    let titles: Vec<&str> = entries.iter().map(|e| e.title.as_str()).collect();
    assert_eq!(titles, vec!["A", "B"]);
    assert!(entries.iter().all(|e| e.path.is_none()));
    assert!(diags.is_empty());
}

#[test]
fn read_outline_reports_diagnostics() {
    let (_, diags) = service().read_outline("# A\n\n### C\n", 6, true).unwrap();
    assert!(diags.iter().any(|d| d.code == "HEADING_LEVEL_JUMP"));
}

#[test]
fn read_block_with_and_without_text() {
    let text = "# Title\n\nbody\n";
    let svc = service();
    let with = svc.read_block(text, &section_selector("Title"), true).unwrap();
    assert_eq!(with.block_type, "section");
    assert_eq!(with.line_range, LineRange { start: 1, end: 3 });
    assert_eq!(with.text.as_deref(), Some("# Title\n\nbody"));
    let without = svc.read_block(text, &section_selector("Title"), false).unwrap();
    assert_eq!(without.id, with.id);
    assert!(without.text.is_none());
}

#[test]
fn read_block_of_root_is_not_found() {
    let err = service().read_block("# Title\n", &BlockSelector::default(), true).unwrap_err();
    match err {
        MdtoolError::BlockNotFound { selector } => {
            assert_eq!(selector, format!("{:?}", BlockSelector::default()));
        }
        other => panic!("unexpected error: {:?}", other),
    }
}

#[test]
fn read_block_text_children_and_types() {
    let text = "# T\n\n- a\n- b\n\n```rust\nx\n```\n";
    let svc = service();
    assert_eq!(svc.read_block_text(text, &section_selector("T")).unwrap().lines().next(), Some("# T"));
    let kids = svc.read_block_children(text, &section_selector("T")).unwrap();
    assert_eq!(kids.len(), 2);
    let fences = svc.read_blocks_by_type(text, "fence").unwrap();
    assert_eq!(fences.len(), 1);
    let tree = svc.read_block_tree(text, &section_selector("T"), -1, true).unwrap();
    assert_eq!(tree.block_type, "section");
    assert_eq!(tree.children.len(), 2);
    assert_eq!(tree.children[0].block_type, "list");
    assert_eq!(tree.children[0].children.len(), 2);
}

#[test]
fn search_blocks_finds_text() {
    let matches = service().search_blocks("# T\n\nHello world\n", "hello", None, false).unwrap();
    assert!(matches.iter().any(|m| m.matched_text.contains("Hello world")));
    let none = service().search_blocks("# T\n\nHello world\n", "hello", None, true).unwrap();
    assert!(none.is_empty());
}

#[test]
fn normalize_service_reports_change() {
    let (resp, write) = service().normalize("# T\n\n\n\ntext   \n", None, false).unwrap();
    assert!(resp.changed);
    assert_eq!(write.unwrap(), "# T\n\ntext\n");
    let (resp2, write2) = service().normalize("# T\n\ntext\n", None, false).unwrap();
    assert!(!resp2.changed);
    assert!(resp2.diff_summary.is_none());
    assert!(write2.is_none());
}

#[test]
fn validate_service_returns_diagnostics() {
    let diags = service().validate("# A\n\n### C\n").unwrap();
    assert!(diags.iter().any(|d| d.code == "HEADING_LEVEL_JUMP"));
}

#[test]
fn ascii_service_replaces_fence_lines_with_formatted_lines() {
    let text = "# T\n\n```ascii\n+--+   \n|a |  \n+--+\n```\n";
    let svc = AsciiService::new(FilesystemPolicy::default());
    let (resp, write) = svc.format_ascii(text, AsciiMode::FormatOnly, false).unwrap();
    assert!(resp.changed);
    assert_eq!(write.unwrap(), "# T\n\n+--+\n|a |\n+--+\n");
}

#[test]
fn parse_service_parses_text() {
    let doc = ParseService::new().parse_text("# A\n\npara\n").unwrap();
    assert_eq!(doc.source_text, "# A\n\npara\n");
    assert!(doc.block_by_id.len() >= 2);
}

#[test]
fn move_block_under_other_section() {
    let text = "# A\n\na\n\n# B\n\nb\n";
    let svc = service();
    let doc = ParseService::new().parse_text(text).unwrap();
    let b_id: BlockId = doc
        .block_by_id
        .iter()
        .find_map(|bn| match bn {
            mdtool::domain::block_node::BlockNode::Section(s) if s.title == "B" => Some(s.block.id),
            _ => None,
        })
        .unwrap();
    let mut para = BlockSelector::default();
    para.block_type = Some("paragraph".to_string());
    para.allow_first_match = true;
    let (resp, write) = svc.move_block(text, &para, b_id, None, false).unwrap();
    assert!(resp.changed);
    let out = write.unwrap();
    assert!(out.find("a").unwrap() > out.find("# B").unwrap());
}

#[test]
fn check_path_requires_roots() {
    let mut p = FilesystemPolicy::default();
    p.allowed_roots.clear();
    match check_path(&p, "doc.md", "/work") {
        Err(MdtoolError::Policy(m)) => assert_eq!(m, "No allowed roots configured"),
        other => panic!("unexpected: {:?}", other),
    }
}

#[test]
fn check_path_inside_and_outside_roots() {
    let mut p = FilesystemPolicy::default();
    p.allowed_roots = vec!["/work/docs".to_string()];
    assert_eq!(check_path(&p, "/work/docs/a.md", "/tmp").unwrap(), "/work/docs/a.md");
    assert_eq!(check_path(&p, "a.md", "/work/docs").unwrap(), "/work/docs/a.md");
    match check_path(&p, "/work/docsx/a.md", "/tmp") {
        Err(MdtoolError::Policy(m)) => assert_eq!(m, "Path '/work/docsx/a.md' is outside allowed roots"),
        other => panic!("unexpected: {:?}", other),
    }
}

#[test]
fn check_path_relative_root_uses_working_directory() {
    let p = FilesystemPolicy::default();
    assert_eq!(check_path(&p, "notes/a.md", "/home/u").unwrap(), "/home/u/notes/a.md");
    assert!(check_path(&p, "/etc/passwd", "/home/u").is_err());
}

#[test]
fn check_path_resolves_parent_components_before_the_root_test() {
    let mut p = FilesystemPolicy::default();
    p.allowed_roots = vec!["/srv/docs".to_string()];
    match check_path(&p, "/srv/docs/../secret.md", "/tmp") {
        Err(MdtoolError::Policy(m)) => assert_eq!(m, "Path '/srv/docs/../secret.md' is outside allowed roots"),
        other => panic!("unexpected: {:?}", other),
    }
    assert_eq!(check_path(&p, "/srv/docs/./a/../b.md", "/tmp").unwrap(), "/srv/docs/b.md");
    assert_eq!(check_path(&p, "../docs/c.md", "/srv/notes").unwrap(), "/srv/docs/c.md");
}

#[test]
fn normalize_path_drops_dots_and_empty_components() {
    assert_eq!(normalize_path("/a//b/./c/../d/"), "/a/b/d");
    assert_eq!(normalize_path("/.."), "/");
    assert_eq!(normalize_path("x/../../y"), "y");
    assert_eq!(normalize_path(""), "");
}
