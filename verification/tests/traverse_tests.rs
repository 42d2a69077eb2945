use mdtool::builder::tree_builder::build_tree;
use mdtool::domain::block_node::BlockNode;
use mdtool::domain::document::DocumentBlock;
use mdtool::ops::diff::collect_descendants;
use mdtool::ops::traverse::{find_ancestors, find_by_path, find_by_type, find_children, walk};
use mdtool::primitives::BlockId;

fn simple_doc() -> DocumentBlock {
    let input = "# Alpha\n\nalpha text\n\n## Beta\n\nbeta text\n\n### Gamma\n\ngamma text\n\n## Delta\n\ndelta text\n";
    build_tree(input).unwrap()
}

fn section_id(doc: &DocumentBlock, title: &str) -> BlockId {
    doc.block_by_id
        .iter()
        .find_map(|bn| match bn {
            BlockNode::Section(s) if s.title == title => Some(s.block.id),
            _ => None,
        })
        .unwrap()
}

fn first_paragraph(doc: &DocumentBlock) -> BlockId {
    doc.block_by_id
        .iter()
        .find_map(|bn| match bn {
            BlockNode::Paragraph(_) => Some(bn.block().id),
            _ => None,
        })
        .unwrap()
}

#[test]
fn walk_root_returns_all_blocks() {
    let doc = simple_doc();
    let all = walk(doc.root_id(), &doc);
    assert_eq!(all[0], doc.root_id());
    assert!(all.len() >= 9, "walk from root should return all blocks, got {}", all.len());
}

#[test]
fn walk_section_returns_subtree() {
    let doc = simple_doc();
    let alpha_id = section_id(&doc, "Alpha");
    let subtree = walk(alpha_id, &doc);
    assert!(subtree.len() > 1, "Alpha subtree should contain descendants");
    assert_eq!(subtree[0], alpha_id);
    let titles_in_subtree: Vec<&str> = subtree
        .iter()
        .filter_map(|id| match doc.get_block(*id) {
            Some(BlockNode::Section(s)) => Some(s.title.as_str()),
            _ => None,
        })
        .collect();
    assert!(titles_in_subtree.contains(&"Beta"));
    assert!(titles_in_subtree.contains(&"Gamma"));
    assert!(titles_in_subtree.contains(&"Delta"));
}

#[test]
fn walk_leaf_returns_single() {
    let doc = simple_doc();
    let para_id = first_paragraph(&doc);
    let result = walk(para_id, &doc);
    assert_eq!(result, vec![para_id]);
}

#[test]
fn walk_is_preorder() {
    let doc = simple_doc();
    let alpha = section_id(&doc, "Alpha");
    let titles: Vec<&str> = walk(alpha, &doc)
        .iter()
        .filter_map(|id| match doc.get_block(*id) {
            Some(BlockNode::Section(s)) => Some(s.title.as_str()),
            _ => None,
        })
        .collect();
    assert_eq!(titles, vec!["Alpha", "Beta", "Gamma", "Delta"]);
}

#[test]
fn walk_unknown_id_returns_itself() {
    let doc = simple_doc();
    assert_eq!(walk(BlockId(999), &doc), vec![BlockId(999)]);
}

#[test]
fn find_children_of_root() {
    let doc = simple_doc();
    let children = find_children(&doc, doc.root_id());
    assert!(!children.is_empty(), "Root should have children");
    let first = doc.get_block(children[0]).unwrap();
    match first {
        BlockNode::Section(s) => assert_eq!(s.title, "Alpha"),
        _ => panic!("First child of root should be the Alpha section"),
    }
}

#[test]
fn find_children_of_section() {
    let doc = simple_doc();
    let alpha_id = section_id(&doc, "Alpha");
    let children = find_children(&doc, alpha_id);
    assert!(!children.is_empty(), "Alpha should have children (Beta, Delta, paragraph)");
}

#[test]
fn find_children_of_leaf_is_empty() {
    let doc = simple_doc();
    let para_id = first_paragraph(&doc);
    let children = find_children(&doc, para_id);
    assert!(children.is_empty());
}

#[test]
fn find_children_of_nonexistent_is_empty() {
    let doc = simple_doc();
    let children = find_children(&doc, BlockId(9999));
    assert!(children.is_empty());
}

#[test]
fn find_ancestors_of_deep_section() {
    let doc = simple_doc();
    let gamma_id = section_id(&doc, "Gamma");
    let ancestors = find_ancestors(&doc, gamma_id);
    assert!(ancestors.len() >= 2, "Gamma should have at least 2 ancestors");
    let first_ancestor = doc.get_block(ancestors[0]).unwrap();
    match first_ancestor {
        BlockNode::Section(s) => assert_eq!(s.title, "Beta"),
        _ => panic!("First ancestor of Gamma should be Beta section"),
    }
    assert_eq!(*ancestors.last().unwrap(), doc.root_id());
}

#[test]
fn find_ancestors_of_root_is_empty() {
    let doc = simple_doc();
    let ancestors = find_ancestors(&doc, doc.root_id());
    assert!(ancestors.is_empty());
}

#[test]
fn find_ancestors_of_top_level_section() {
    let doc = simple_doc();
    let alpha_id = section_id(&doc, "Alpha");
    let ancestors = find_ancestors(&doc, alpha_id);
    assert_eq!(ancestors.len(), 1);
    assert_eq!(ancestors[0], doc.root_id());
}

#[test]
fn find_ancestors_chain_is_exact() {
    let doc = simple_doc();
    let gamma = section_id(&doc, "Gamma");
    let beta = section_id(&doc, "Beta");
    let alpha = section_id(&doc, "Alpha");
    assert_eq!(find_ancestors(&doc, gamma), vec![beta, alpha, doc.root_id()]);
}

#[test]
fn find_by_type_returns_sections() {
    let doc = simple_doc();
    let sections = find_by_type(&doc, "section");
    assert_eq!(sections.len(), 4, "Should find Alpha, Beta, Gamma, Delta sections");
}

#[test]
fn find_by_type_returns_paragraphs() {
    let doc = simple_doc();
    let paragraphs = find_by_type(&doc, "paragraph");
    assert_eq!(paragraphs.len(), 4, "Should find 4 paragraphs (one per section)");
}

#[test]
fn find_by_type_unknown_returns_empty() {
    let doc = simple_doc();
    let unknowns = find_by_type(&doc, "fence");
    assert!(unknowns.is_empty());
}

#[test]
fn find_by_path_exact_match() {
    let doc = simple_doc();
    let result = find_by_path(&doc, "/alpha/beta");
    assert!(result.is_some());
    let bn = doc.get_block(result.unwrap()).unwrap();
    match bn {
        BlockNode::Section(s) => assert_eq!(s.title, "Beta"),
        _ => panic!("Expected a Section block"),
    }
}

#[test]
fn find_by_path_nested() {
    let doc = simple_doc();
    let result = find_by_path(&doc, "/alpha/beta/gamma");
    assert!(result.is_some());
    let bn = doc.get_block(result.unwrap()).unwrap();
    match bn {
        BlockNode::Section(s) => assert_eq!(s.title, "Gamma"),
        _ => panic!("Expected a Section block"),
    }
}

#[test]
fn find_by_path_top_level() {
    let doc = simple_doc();
    let result = find_by_path(&doc, "/alpha");
    assert!(result.is_some());
    let bn = doc.get_block(result.unwrap()).unwrap();
    match bn {
        BlockNode::Section(s) => assert_eq!(s.title, "Alpha"),
        _ => panic!("Expected a Section block"),
    }
}

#[test]
fn find_by_path_no_match() {
    let doc = simple_doc();
    let result = find_by_path(&doc, "/nonexistent");
    assert!(result.is_none());
}

#[test]
fn list_items_hang_under_their_list_only() {
    let doc = build_tree("# S\n\n- a\n- b\n\nafter\n").unwrap();
    let list = doc
        .block_by_id
        .iter()
        .find_map(|bn| match bn {
            BlockNode::List(l) => Some(l.block.clone()),
            _ => None,
        })
        .unwrap();
    let sec = section_id(&doc, "S");
    let items: Vec<BlockId> = doc
        .block_by_id
        .iter()
        .filter_map(|bn| match bn {
            BlockNode::ListItem(li) => Some(li.block.id),
            _ => None,
        })
        .collect();
    assert_eq!(items.len(), 2);
    assert_eq!(list.children_ids, items);
    assert_eq!(list.parent_id, Some(sec));
    let sec_children = doc.get_block(sec).unwrap().block().children_ids.clone();
    for id in &items {
        assert_eq!(doc.get_block(*id).unwrap().block().parent_id, Some(list.id));
        assert!(!sec_children.contains(id));
    }
    assert!(sec_children.contains(&list.id));
    assert_eq!(find_children(&doc, list.id), items);
}

#[test]
fn built_ids_are_distinct_and_not_the_root() {
    let doc = simple_doc();
    let ids: Vec<BlockId> = doc.block_by_id.iter().map(|bn| bn.block().id).collect();
    for (i, a) in ids.iter().enumerate() {
        assert_ne!(*a, doc.block.id);
        for b in &ids[i + 1..] {
            assert_ne!(a, b);
        }
    }
}

#[test]
fn walk_needs_no_id_order_only_an_acyclic_tree() {
    let mut doc = build_tree("# A\n\nx\n\n# B\n\ny\n").unwrap();
    // Hang section A under section B: B's id is above A's, yet the tree has no cycle.
    let a = section_id(&doc, "A");
    let b = section_id(&doc, "B");
    doc.block.children_ids.retain(|id| *id != a);
    for bn in doc.block_by_id.iter_mut() {
        if bn.block().id == b {
            bn.block_mut().children_ids.push(a);
        }
    }
    let order = walk(BlockId(0), &doc);
    let pos_a = order.iter().position(|id| *id == a).unwrap();
    let pos_b = order.iter().position(|id| *id == b).unwrap();
    assert!(pos_b < pos_a);
    assert_eq!(order.len(), 1 + doc.block_by_id.len());
}

#[test]
fn every_listed_child_names_its_parent_and_is_listed_once() {
    let doc = build_tree("# A\n\n- a\n- b\n\n## A2\n\n| x | y |\n|---|---|\n| 1 | 2 |\n\n# B\n\ntext\n").unwrap();
    let mut seen: Vec<BlockId> = Vec::new();
    for bn in &doc.block_by_id {
        for c in &bn.block().children_ids {
            let child = doc.get_block(*c).unwrap();
            assert_eq!(child.block().parent_id, Some(bn.block().id));
            assert!(!seen.contains(c));
            seen.push(*c);
        }
    }
}

#[test]
fn root_and_blocks_agree_on_parents() {
    let doc = build_tree("intro\n\n# A\n\n- a\n- b\n\n# B\n\ntext\n").unwrap();
    for bn in &doc.block_by_id {
        let listed_by_root = doc.block.children_ids.contains(&bn.block().id);
        assert_eq!(bn.block().parent_id == Some(doc.block.id), listed_by_root);
        if let BlockNode::ListItem(li) = bn {
            let parent = doc.get_block(li.block.parent_id.unwrap()).unwrap();
            assert!(matches!(parent, BlockNode::List(_)));
        }
    }
}

#[test]
fn descendants_are_the_walk_below_the_block() {
    let doc = simple_doc();
    let alpha = section_id(&doc, "Alpha");
    let walked = walk(alpha, &doc);
    assert_eq!(collect_descendants(&doc, alpha), walked[1..].to_vec());
}
