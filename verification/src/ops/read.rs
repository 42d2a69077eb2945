//! Read operations on the document block tree: outlines, block text,
//! nested tree structures, children lists and type-filtered block IDs.

use vstd::prelude::*;

use crate::domain::block::{copy_ids, Block, BlockModel};
use crate::domain::block_node::{BlockNode, NodeModel};
use crate::domain::document::{acyclic, child_rank, node_of, text_for_range, DocModel, DocumentBlock};
use crate::domain::selectors::{BlockSelector, SelectorModel};
use crate::error::{ErrorModel, MdtoolError};
use crate::ops::order::{law_sort_keeps_the_elements, sort_by_key, sort_by_key_spec};
use crate::ops::resolve::{resolve_selector, resolve_spec};
use crate::ops::traverse::{children_of, get_block};
use crate::primitives::BlockId;
use crate::text::{append, chars_eq, chars_of, decimal, decimal_chars, string_of};

verus! {

broadcast use vstd::std_specs::vec::group_vec_axioms;

// ---------------------------------------------------------------------------
// Public types
// ---------------------------------------------------------------------------

/// A single entry in a document outline (heading hierarchy).
#[derive(Debug, Clone)]
pub struct OutlineEntry {
    pub id: BlockId,
    pub level: u8,
    pub title: String,
    pub path: Option<String>,
}

/// The mathematical content of an [`OutlineEntry`].
pub struct EntryModel {
    pub id: BlockId,
    pub level: u8,
    pub title: Seq<char>,
    pub path: Option<Seq<char>>,
}

impl View for OutlineEntry {
    type V = EntryModel;

    open spec fn view(&self) -> EntryModel {
        EntryModel {
            id: self.id,
            level: self.level,
            title: self.title@,
            path: crate::domain::block_node::opt_view(self.path),
        }
    }
}

/// Nested tree representation returned by [`read_block_tree`].
#[derive(Debug)]
pub struct BlockTree {
    pub id: BlockId,
    pub block_type: String,
    pub title: Option<String>,
    pub level: Option<u8>,
    pub rows: Option<usize>,
    pub cols: Option<usize>,
    pub items: Option<usize>,
    pub children: Vec<BlockTree>,
}

/// The type-specific fields of a tree node: title, level, rows, columns,
/// items.
pub struct TreeMeta {
    pub title: Option<Seq<char>>,
    pub level: Option<u8>,
    pub rows: Option<usize>,
    pub cols: Option<usize>,
    pub items: Option<usize>,
}

// ---------------------------------------------------------------------------
// Specifications
// ---------------------------------------------------------------------------

/// The start line of a block.
pub open spec fn start_of(m: NodeModel) -> usize {
    m.block().line_range.start
}

/// (start line, position) of the sections among the first `k` blocks whose
/// level is at most `max`.
pub open spec fn outline_keys(blocks: Seq<NodeModel>, max: u8, k: int) -> Seq<(usize, usize)>
    decreases k,
{
    if k <= 0 {
        Seq::empty()
    } else if blocks[k - 1] matches NodeModel::Section { level, .. } && level <= max {
        outline_keys(blocks, max, k - 1).push((start_of(blocks[k - 1]), (k - 1) as usize))
    } else {
        outline_keys(blocks, max, k - 1)
    }
}

/// The outline entry of a section.
pub open spec fn entry_of(m: NodeModel, include_paths: bool) -> EntryModel {
    match m {
        NodeModel::Section { block, level, title, path, .. } => EntryModel {
            id: block.id,
            level,
            title,
            path: if include_paths { Some(path) } else { None },
        },
        _ => EntryModel { id: m.block().id, level: 0, title: Seq::empty(), path: None },
    }
}

/// The heading level bound actually applied: `max_depth`, at most 6.
pub open spec fn effective_max(max_depth: u8) -> u8 {
    if max_depth < 6 { max_depth } else { 6 }
}

/// (start line, position) of the first `k` blocks whose type name is `t`.
pub open spec fn type_keys(blocks: Seq<NodeModel>, t: Seq<char>, k: int) -> Seq<(usize, usize)>
    decreases k,
{
    if k <= 0 {
        Seq::empty()
    } else if blocks[k - 1].kind_name() == t {
        type_keys(blocks, t, k - 1).push((start_of(blocks[k - 1]), (k - 1) as usize))
    } else {
        type_keys(blocks, t, k - 1)
    }
}

/// The message of a missing block, by id.
pub open spec fn id_label(id: BlockId) -> Seq<char> {
    "id=BlockId("@ + decimal(id.0 as nat) + ")"@
}

/// What reading the text of the selected block gives.
pub open spec fn block_text_spec(d: DocModel, sel: SelectorModel) -> Result<Seq<char>, ErrorModel> {
    match resolve_spec(d, sel) {
        Ok(id) => match node_of(d, id) {
            Some(b) => Ok(text_for_range(d.source_text, b.line_range)),
            None => Err(ErrorModel::BlockNotFound { selector: id_label(id) }),
        },
        Err(e) => Err(e),
    }
}

/// What reading the children of the selected block gives.
pub open spec fn block_children_spec(d: DocModel, sel: SelectorModel) -> Result<Seq<BlockId>, ErrorModel> {
    match resolve_spec(d, sel) {
        Ok(id) => match node_of(d, id) {
            Some(b) => Ok(b.children),
            None => Err(ErrorModel::BlockNotFound { selector: id_label(id) }),
        },
        Err(e) => Err(e),
    }
}

/// The type-specific fields of a block: title and level of a section,
/// rows (header included) and columns of a table, items of a list.
pub open spec fn meta_of(m: NodeModel) -> TreeMeta {
    match m {
        NodeModel::Section { title, level, .. } => TreeMeta {
            title: Some(title),
            level: Some(level),
            rows: None,
            cols: None,
            items: None,
        },
        NodeModel::Table { header_row, body_rows, .. } => TreeMeta {
            title: None,
            level: None,
            rows: Some(if body_rows.len() < usize::MAX { (1 + body_rows.len()) as usize } else { usize::MAX }),
            cols: Some(header_row.len() as usize),
            items: None,
        },
        NodeModel::List { block, .. } => TreeMeta {
            title: None,
            level: None,
            rows: None,
            cols: None,
            items: Some(block.children.len() as usize),
        },
        _ => TreeMeta { title: None, level: None, rows: None, cols: None, items: None },
    }
}

/// The depth budget handed to children: one less, or unlimited (negative)
/// when unlimited.
pub open spec fn next_depth(depth: i32) -> i32 {
    if depth > 0 { (depth - 1) as i32 } else { -1i32 }
}

/// Whether a tree node `t` is the node of block `id`, with type name,
/// fields and children as given.
pub open spec fn node_fields(t: BlockTree, id: BlockId, kind: Seq<char>, meta: TreeMeta) -> bool {
    &&& t.id == id
    &&& t.block_type@ == kind
    &&& crate::domain::block_node::opt_view(t.title) == meta.title
    &&& t.level == meta.level
    &&& t.rows == meta.rows
    &&& t.cols == meta.cols
    &&& t.items == meta.items
}

/// The type name and fields of the tree node of block `id`: `document` for
/// the root, `unknown` without fields for a missing block.
pub open spec fn kind_and_meta(d: DocModel, id: BlockId) -> (Seq<char>, TreeMeta) {
    if id == d.block.id {
        ("document"@, TreeMeta { title: None, level: None, rows: None, cols: None, items: None })
    } else {
        match crate::domain::document::lookup(d.blocks, id) {
            Some(m) => (m.kind_name(), meta_of(m)),
            None => ("unknown"@, TreeMeta { title: None, level: None, rows: None, cols: None, items: None }),
        }
    }
}

/// Whether `t` is the tree of block `id` with depth budget `depth` (zero:
/// no children; negative: unlimited): its node carries the block's type
/// name and fields, and its children are the trees of the block's children
/// with the next budget. Under an unlimited budget a child that does not
/// rank below its block (see [`child_rank`]) would close a cycle (in an
/// acyclic tree there is none).
pub open spec fn is_tree(d: DocModel, id: BlockId, depth: i32, t: BlockTree) -> bool
    decreases (if depth < 0 { 0int } else { 1int }), (if depth < 0 { child_rank(d)(id) as int } else { depth as int }),
{
    let km = kind_and_meta(d, id);
    let cs = children_of(d, id);
    &&& node_fields(t, id, km.0, km.1)
    &&& if depth == 0 || (id != d.block.id && crate::domain::document::lookup(d.blocks, id) is None) {
        t.children@.len() == 0
    } else {
        &&& t.children@.len() == cs.len()
        &&& forall|k: int| #![trigger cs[k]] 0 <= k < cs.len() ==> (depth >= 0 || child_rank(d)(cs[k]) < child_rank(d)(id)) ==> is_tree(
            d,
            cs[k],
            next_depth(depth),
            t.children@[k],
        )
    }
}

// ---------------------------------------------------------------------------
// Public functions
// ---------------------------------------------------------------------------

/// The sections of level at most `max_depth` (bounded by 6), in document
/// order (by start line), each with its id, level, title, and its path when
/// `include_paths` is set.
pub fn read_outline(doc: &DocumentBlock, max_depth: u8, include_paths: bool) -> (r: Vec<OutlineEntry>)
    ensures
        ({
            let keys = sort_by_key_spec(outline_keys(doc@.blocks, effective_max(max_depth), doc@.blocks.len() as int));
            &&& r@.len() == keys.len()
            &&& forall|i: int| 0 <= i < keys.len() ==> #[trigger] r@[i]@ == entry_of(doc@.blocks[keys[i].1 as int], include_paths)
        }),
{
    let eff: u8 = if max_depth < 6 { max_depth } else { 6 };
    let ghost blocks = doc@.blocks;
    let mut keys: Vec<(usize, usize)> = Vec::new();
    let mut i: usize = 0;
    while i < doc.block_by_id.len()
        invariant
            i <= blocks.len(),
            blocks == doc@.blocks,
            keys@ == outline_keys(blocks, eff, i as int),
            forall|k: int| 0 <= k < keys@.len() ==> #[trigger] keys@[k].1 < i,
        decreases blocks.len() - i,
    {
        let bn = &doc.block_by_id[i];
        assert(bn@ == blocks[i as int]);
        match bn {
            BlockNode::Section(s) => {
                if s.level <= eff {
                    keys.push((s.block.line_range.start, i));
                }
            },
            _ => {},
        }
        i = i + 1;
    }
    let sorted = sort_by_key(&keys);
    proof {
        crate::ops::order::law_sort_is_sorted(keys@);
        lemma_sorted_members(keys@);
    }
    let mut out: Vec<OutlineEntry> = Vec::new();
    let mut k: usize = 0;
    while k < sorted.len()
        invariant
            k <= sorted@.len(),
            blocks == doc@.blocks,
            forall|q: int| 0 <= q < sorted@.len() ==> #[trigger] sorted@[q].1 < blocks.len(),
            out@.len() == k,
            forall|q: int| 0 <= q < k ==> #[trigger] out@[q]@ == entry_of(blocks[sorted@[q].1 as int], include_paths),
        decreases sorted@.len() - k,
    {
        let pos = sorted[k].1;
        let bn = &doc.block_by_id[pos];
        assert(bn@ == blocks[pos as int]);
        let e = match bn {
            BlockNode::Section(s) => OutlineEntry {
                id: s.block.id,
                level: s.level,
                title: s.title.clone(),
                path: if include_paths { Some(s.path.clone()) } else { None },
            },
            _ => OutlineEntry { id: bn.block().id, level: 0, title: String::new(), path: None },
        };
        out.push(e);
        k = k + 1;
    }
    out
}

/// Every position recorded by the sort was recorded before it.
proof fn lemma_sorted_members(keys: Seq<(usize, usize)>)
    ensures
        forall|q: int| 0 <= q < sort_by_key_spec(keys).len() ==> keys.contains(#[trigger] sort_by_key_spec(keys)[q]),
    decreases keys.len(),
{
    if keys.len() > 0 {
        let t = keys.drop_last();
        lemma_sorted_members(t);
        lemma_insert_members_of(sort_by_key_spec(t), keys.last());
        assert forall|q: int| 0 <= q < sort_by_key_spec(keys).len() implies keys.contains(#[trigger] sort_by_key_spec(keys)[q]) by {
            let x = sort_by_key_spec(keys)[q];
            if x == keys.last() {
                assert(keys[keys.len() - 1] == x);
            } else {
                assert(sort_by_key_spec(t).contains(x));
                let w = choose|w: int| 0 <= w < sort_by_key_spec(t).len() && sort_by_key_spec(t)[w] == x;
                assert(t.contains(sort_by_key_spec(t)[w]));
                let z = choose|z: int| 0 <= z < t.len() && t[z] == x;
                assert(keys[z] == x);
            }
        }
    }
}

proof fn lemma_insert_members_of(s: Seq<(usize, usize)>, x: (usize, usize))
    ensures
        forall|i: int| 0 <= i < crate::ops::order::insert_by_key(s, x).len() ==> (#[trigger] crate::ops::order::insert_by_key(s, x)[i] == x
            || s.contains(crate::ops::order::insert_by_key(s, x)[i])),
    decreases s.len(),
{
    let ins = crate::ops::order::insert_by_key(s, x);
    if s.len() > 0 && s.last().0 > x.0 {
        let t = s.drop_last();
        lemma_insert_members_of(t, x);
        assert forall|i: int| 0 <= i < ins.len() implies (#[trigger] ins[i] == x || s.contains(ins[i])) by {
            let it = crate::ops::order::insert_by_key(t, x);
            if i < it.len() {
                if it[i] != x {
                    let k = choose|k: int| 0 <= k < t.len() && t[k] == it[i];
                    assert(s[k] == t[k]);
                }
            } else {
                assert(s[s.len() - 1] == s.last());
            }
        }
    } else if s.len() > 0 {
        assert forall|i: int| 0 <= i < ins.len() implies (#[trigger] ins[i] == x || s.contains(ins[i])) by {
            if i < s.len() {
                assert(s[i] == ins[i]);
            }
        }
    }
}

fn id_message(id: BlockId) -> (r: String)
    ensures
        r@ == id_label(id),
{
    let mut s = chars_of("id=BlockId(");
    append(&mut s, decimal_chars(id.0 as usize).as_slice());
    append(&mut s, chars_of(")").as_slice());
    string_of(s.as_slice())
}

/// Resolve `selector` and return the source text covered by the matched
/// block.
pub fn read_block_text(doc: &DocumentBlock, selector: &BlockSelector) -> (r: Result<String, MdtoolError>)
    ensures
        match r {
            Ok(s) => block_text_spec(doc@, selector@) == Ok::<Seq<char>, ErrorModel>(s@),
            Err(e) => block_text_spec(doc@, selector@) == Err::<Seq<char>, ErrorModel>(e@),
        },
{
    let block_id = resolve_selector(doc, selector)?;
    match get_block(doc, block_id) {
        Some(b) => Ok(doc.source_text_for_range(b.line_range)),
        None => Err(MdtoolError::BlockNotFound { selector: id_message(block_id) }),
    }
}

/// Resolve `selector` and return the matched block together with its
/// subtree as a nested [`BlockTree`]: `depth` -1 (any negative) for the
/// whole subtree, 0 for the block alone, `n` for up to `n` levels.
pub fn read_block_tree(doc: &DocumentBlock, selector: &BlockSelector, depth: i32) -> (r: Result<BlockTree, MdtoolError>)
    requires
        depth < 0 ==> acyclic(doc@),
    ensures
        match r {
            Ok(t) => resolve_spec(doc@, selector@) matches Ok(id) && is_tree(doc@, id, depth, t),
            Err(e) => resolve_spec(doc@, selector@) == Err::<BlockId, ErrorModel>(e@),
        },
{
    let block_id = resolve_selector(doc, selector)?;
    Ok(build_block_tree_recursive(doc, block_id, depth))
}

/// Resolve `selector` and return the ordered children of the matched block.
pub fn read_block_children(doc: &DocumentBlock, selector: &BlockSelector) -> (r: Result<Vec<BlockId>, MdtoolError>)
    ensures
        match r {
            Ok(v) => block_children_spec(doc@, selector@) == Ok::<Seq<BlockId>, ErrorModel>(v@),
            Err(e) => block_children_spec(doc@, selector@) == Err::<Seq<BlockId>, ErrorModel>(e@),
        },
{
    let block_id = resolve_selector(doc, selector)?;
    match get_block(doc, block_id) {
        Some(b) => Ok(copy_ids(&b.children_ids)),
        None => Err(MdtoolError::BlockNotFound { selector: id_message(block_id) }),
    }
}

/// The ids of all blocks whose type name equals `block_type`, in document
/// order (by start line).
pub fn read_blocks_by_type(doc: &DocumentBlock, block_type: &str) -> (r: Vec<BlockId>)
    ensures
        ({
            let keys = sort_by_key_spec(type_keys(doc@.blocks, block_type@, doc@.blocks.len() as int));
            &&& r@.len() == keys.len()
            &&& forall|i: int| 0 <= i < keys.len() ==> #[trigger] r@[i] == doc@.blocks[keys[i].1 as int].block().id
        }),
{
    let want = chars_of(block_type);
    let ghost blocks = doc@.blocks;
    let mut keys: Vec<(usize, usize)> = Vec::new();
    let mut i: usize = 0;
    while i < doc.block_by_id.len()
        invariant
            i <= blocks.len(),
            blocks == doc@.blocks,
            want@ == block_type@,
            keys@ == type_keys(blocks, block_type@, i as int),
            forall|k: int| 0 <= k < keys@.len() ==> #[trigger] keys@[k].1 < i,
        decreases blocks.len() - i,
    {
        let bn = &doc.block_by_id[i];
        assert(bn@ == blocks[i as int]);
        let name = chars_of(bn.block_type_name());
        if chars_eq(name.as_slice(), want.as_slice()) {
            keys.push((bn.block().line_range.start, i));
        }
        i = i + 1;
    }
    let sorted = sort_by_key(&keys);
    proof {
        lemma_sorted_members(keys@);
    }
    let mut out: Vec<BlockId> = Vec::new();
    let mut k: usize = 0;
    while k < sorted.len()
        invariant
            k <= sorted@.len(),
            blocks == doc@.blocks,
            forall|q: int| 0 <= q < sorted@.len() ==> #[trigger] sorted@[q].1 < blocks.len(),
            out@.len() == k,
            forall|q: int| 0 <= q < k ==> #[trigger] out@[q] == blocks[sorted@[q].1 as int].block().id,
        decreases sorted@.len() - k,
    {
        let pos = sorted[k].1;
        let bn = &doc.block_by_id[pos];
        assert(bn@ == blocks[pos as int]);
        out.push(bn.block().id);
        k = k + 1;
    }
    out
}

// ---------------------------------------------------------------------------
// Internal helpers
// ---------------------------------------------------------------------------

/// Pull type-specific fields out of a block node.
fn extract_block_metadata(bn: &BlockNode) -> (r: (Option<String>, Option<u8>, Option<usize>, Option<usize>, Option<usize>))
    ensures
        crate::domain::block_node::opt_view(r.0) == meta_of(bn@).title,
        r.1 == meta_of(bn@).level,
        r.2 == meta_of(bn@).rows,
        r.3 == meta_of(bn@).cols,
        r.4 == meta_of(bn@).items,
{
    match bn {
        BlockNode::Section(s) => (Some(s.title.clone()), Some(s.level), None, None, None),
        BlockNode::Table(t) => {
            let row_count = if t.body_rows.len() < usize::MAX { 1 + t.body_rows.len() } else { usize::MAX };
            let col_count = t.header_row.len();
            (None, None, Some(row_count), Some(col_count), None)
        },
        BlockNode::List(l) => (None, None, None, None, Some(l.block.children_ids.len())),
        _ => (None, None, None, None, None),
    }
}

/// Build the tree of `block_id`, descending at most `remaining_depth`
/// levels (negative: unlimited).
fn build_block_tree_recursive(doc: &DocumentBlock, block_id: BlockId, remaining_depth: i32) -> (r: BlockTree)
    requires
        remaining_depth < 0 ==> acyclic(doc@),
    ensures
        is_tree(doc@, block_id, remaining_depth, r),
    decreases (if remaining_depth < 0 { 0int } else { 1int }), (if remaining_depth < 0 {
        child_rank(doc@)(block_id) as int
    } else {
        remaining_depth as int
    }),
{
    let ghost d = doc@;
    let (kind, title, level, rows, cols, items, found) = if block_id == doc.root_id() {
        (String::from_str("document"), None, None, None, None, None, true)
    } else {
        match doc.get_block(block_id) {
            Some(bn) => {
                let (title, level, rows, cols, items) = extract_block_metadata(bn);
                (String::from_str(bn.block_type_name()), title, level, rows, cols, items, true)
            },
            None => (String::from_str("unknown"), None, None, None, None, None, false),
        }
    };
    let mut children: Vec<BlockTree> = Vec::new();
    if remaining_depth != 0 && found {
        let next: i32 = if remaining_depth > 0 { remaining_depth - 1 } else { -1 };
        proof {
            if remaining_depth < 0 {
                crate::domain::document::lemma_acyclic_kids(d, block_id);
            }
        }
        let b = get_block(doc, block_id).unwrap();
        let ghost cs = b.children_ids@;
        assert(cs == children_of(d, block_id));
        let mut i: usize = 0;
        while i < b.children_ids.len()
            invariant
                d == doc@,
                remaining_depth < 0 ==> acyclic(d),
                remaining_depth != 0,
                next == next_depth(remaining_depth),
                cs == b.children_ids@,
                cs == children_of(d, block_id),
                remaining_depth < 0 ==> forall|k: int| 0 <= k < cs.len() ==> #[trigger] child_rank(d)(cs[k]) < child_rank(d)(block_id),
                i <= cs.len(),
                children@.len() == i,
                forall|k: int| 0 <= k < i ==> #[trigger] is_tree(d, cs[k], next, children@[k]),
            decreases cs.len() - i,
        {
            let c = b.children_ids[i];
            let t = build_block_tree_recursive(doc, c, next);
            children.push(t);
            i = i + 1;
        }
        assert forall|k: int| #![trigger cs[k]] 0 <= k < cs.len() implies (remaining_depth >= 0 || child_rank(d)(cs[k]) < child_rank(d)(block_id))
            ==> is_tree(d, cs[k], next_depth(remaining_depth), children@[k]) by {
            assert(is_tree(d, cs[k], next, children@[k]));
        }
    }
    let r = BlockTree { id: block_id, block_type: kind, title, level, rows, cols, items, children };
    proof {
        let km = kind_and_meta(d, block_id);
        assert(node_fields(r, block_id, km.0, km.1));
        assert(found == (block_id == d.block.id || crate::domain::document::lookup(d.blocks, block_id) is Some));
    }
    r
}

/// Whether a block is a section of level at most `max`.
pub open spec fn shallow_section(m: NodeModel, max: u8) -> bool {
    m matches NodeModel::Section { level, .. } && level <= max
}

proof fn lemma_outline_keys(blocks: Seq<NodeModel>, max: u8, k: int)
    requires
        k <= blocks.len() <= usize::MAX,
    ensures
        forall|x: (usize, usize)| #[trigger] outline_keys(blocks, max, k).contains(x) ==> 0 <= x.1 < k && shallow_section(blocks[x.1 as int], max),
        forall|p: int| 0 <= p < k && shallow_section(#[trigger] blocks[p], max) ==> outline_keys(blocks, max, k).contains((start_of(blocks[p]), p as usize)),
    decreases k,
{
    if k > 0 {
        lemma_outline_keys(blocks, max, k - 1);
        let prev = outline_keys(blocks, max, k - 1);
        let cur = outline_keys(blocks, max, k);
        assert forall|x: (usize, usize)| #[trigger] cur.contains(x) implies 0 <= x.1 < k && shallow_section(blocks[x.1 as int], max) by {
            let q = choose|q: int| 0 <= q < cur.len() && cur[q] == x;
            if q < prev.len() {
                assert(prev[q] == x);
                assert(prev.contains(x));
            } else {
                assert(cur.len() > prev.len());
                assert(shallow_section(blocks[k - 1], max));
                assert(cur[q] == (start_of(blocks[k - 1]), (k - 1) as usize));
            }
        }
        assert forall|p: int| 0 <= p < k && shallow_section(#[trigger] blocks[p], max) implies cur.contains((start_of(blocks[p]), p as usize)) by {
            if p < k - 1 {
                assert(prev.contains((start_of(blocks[p]), p as usize)));
                let q = choose|q: int| 0 <= q < prev.len() && prev[q] == (start_of(blocks[p]), p as usize);
                assert(cur[q] == prev[q]);
            } else {
                assert(cur[prev.len() as int] == (start_of(blocks[p]), p as usize));
            }
        }
    }
}

/// The outline lists exactly the sections whose level is at most
/// `max_depth` (and at most 6): every entry is such a section, with its id
/// and level, and every such section has an entry.
pub proof fn law_outline_is_the_shallow_sections(d: DocModel, max_depth: u8, include_paths: bool, r: Seq<EntryModel>)
    requires
        d.blocks.len() <= usize::MAX,
        ({
            let keys = sort_by_key_spec(outline_keys(d.blocks, effective_max(max_depth), d.blocks.len() as int));
            &&& r.len() == keys.len()
            &&& forall|i: int| 0 <= i < keys.len() ==> #[trigger] r[i] == entry_of(d.blocks[keys[i].1 as int], include_paths)
        }),
    ensures
        ({
            let bound: u8 = if max_depth <= 6 { max_depth } else { 6 };
            &&& forall|i: int| 0 <= i < r.len() ==> r[i].level <= bound && exists|p: int| 0 <= p < d.blocks.len() && (#[trigger] d.blocks[p] matches NodeModel::Section { block, level, .. } && block.id == r[i].id && level == r[i].level)
            &&& forall|p: int| 0 <= p < d.blocks.len() && (#[trigger] d.blocks[p] matches NodeModel::Section { level, .. } && level <= bound) ==> exists|i: int| 0 <= i < r.len() && #[trigger] r[i].id == d.blocks[p].block().id
        }),
{
    let n = d.blocks.len() as int;
    let max = effective_max(max_depth);
    let ks = outline_keys(d.blocks, max, n);
    let keys = sort_by_key_spec(ks);
    lemma_outline_keys(d.blocks, max, n);
    law_sort_keeps_the_elements(ks);
    crate::ops::order::law_sort_is_sorted(ks);
    let bound: u8 = if max_depth <= 6 { max_depth } else { 6 };
    assert(max == bound);
    assert forall|i: int| 0 <= i < r.len() implies r[i].level <= bound && exists|p: int| 0 <= p < d.blocks.len() && (#[trigger] d.blocks[p] matches NodeModel::Section { block, level, .. } && block.id == r[i].id && level == r[i].level) by {
        assert(keys.contains(keys[i]));
        assert(ks.contains(keys[i]));
        let p = keys[i].1 as int;
        assert(r[i] == entry_of(d.blocks[p], include_paths));
    }
    assert forall|p: int| 0 <= p < d.blocks.len() && (#[trigger] d.blocks[p] matches NodeModel::Section { level, .. } && level <= bound) implies exists|i: int| 0 <= i < r.len() && #[trigger] r[i].id == d.blocks[p].block().id by {
        let x = (start_of(d.blocks[p]), p as usize);
        assert(ks.contains(x));
        assert(keys.contains(x));
        let i = choose|i: int| 0 <= i < keys.len() && keys[i] == x;
        assert(r[i] == entry_of(d.blocks[p], include_paths));
    }
}

} // verus!
