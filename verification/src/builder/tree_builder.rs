use vstd::prelude::*;

use crate::domain::block::{Block, BlockModel};
use crate::domain::block_node::{BlockNode, NodeModel};
use crate::domain::document::{node_views, DocModel, DocumentBlock};
use crate::error::{diag_views, DiagModel, Diagnostic, MdtoolError, Severity};
use crate::infrastructure::markdown::gfm_tree;
use crate::infrastructure::normalizer::preprocess_spec;
use crate::infrastructure::parser::{gfm_doc, ids_fit, parse_markdown, slug_of};
use crate::primitives::{BlockId, LineRange};
use crate::text::{append, chars_eq, chars_of, decimal, decimal_chars, join_with, string_of};

verus! {

broadcast use vstd::std_specs::vec::group_vec_axioms;

// ---------------------------------------------------------------------------
// The heading tree, stated over the flat block list
// ---------------------------------------------------------------------------

/// Whether a node is a section.
pub open spec fn is_sec(m: NodeModel) -> bool {
    m is Section
}

/// The heading level of a section (0 for other nodes).
pub open spec fn lvl(m: NodeModel) -> int {
    match m {
        NodeModel::Section { level, .. } => level as int,
        _ => 0,
    }
}

/// The title of a section (empty for other nodes).
pub open spec fn title_of(m: NodeModel) -> Seq<char> {
    match m {
        NodeModel::Section { title, .. } => title,
        _ => Seq::empty(),
    }
}

/// The last section before position `k` whose level is below `l`.
pub open spec fn last_lower(b: Seq<NodeModel>, l: int, k: int) -> Option<int>
    decreases k,
{
    if k <= 0 {
        None
    } else if is_sec(b[k - 1]) && lvl(b[k - 1]) < l {
        Some(k - 1)
    } else {
        last_lower(b, l, k - 1)
    }
}

/// The last section before position `k`.
pub open spec fn last_section(b: Seq<NodeModel>, k: int) -> Option<int>
    decreases k,
{
    if k <= 0 {
        None
    } else if is_sec(b[k - 1]) {
        Some(k - 1)
    } else {
        last_section(b, k - 1)
    }
}

/// The last list before position `k`.
pub open spec fn last_list(b: Seq<NodeModel>, k: int) -> Option<int>
    decreases k,
{
    if k <= 0 {
        None
    } else if b[k - 1] is List {
        Some(k - 1)
    } else {
        last_list(b, k - 1)
    }
}

/// Whether block `i` is a list item that follows a list: such an item
/// belongs to that list.
pub open spec fn in_list(b: Seq<NodeModel>, i: int) -> bool {
    b[i] is ListItem && last_list(b, i) is Some
}

/// The position of the parent of block `i` (`None` for the root): for a
/// section, the nearest earlier section of a lower level; for a list item,
/// the list it follows; for any other block, the nearest earlier section.
pub open spec fn parent_index(b: Seq<NodeModel>, i: int) -> Option<int> {
    if is_sec(b[i]) {
        last_lower(b, lvl(b[i]), i)
    } else if in_list(b, i) {
        last_list(b, i)
    } else {
        last_section(b, i)
    }
}

/// The id of the parent of block `i`.
pub open spec fn parent_block_id(b: Seq<NodeModel>, root: BlockId, i: int) -> BlockId {
    match parent_index(b, i) {
        Some(j) => b[j].block().id,
        None => root,
    }
}

/// The ids of the blocks among the first `k` whose parent is at `p`
/// (`None` for the root), in order.
pub open spec fn kids(b: Seq<NodeModel>, p: Option<int>, k: int) -> Seq<BlockId>
    decreases k,
{
    if k <= 0 {
        Seq::empty()
    } else if parent_index(b, k - 1) == p {
        kids(b, p, k - 1).push(b[k - 1].block().id)
    } else {
        kids(b, p, k - 1)
    }
}

/// The last line of section `i`: the line before the first later section
/// (searching from `j`) of the same or a lower level, else the document end.
pub open spec fn section_end(b: Seq<NodeModel>, i: int, j: int, doc_end: usize) -> usize
    decreases b.len() - j,
{
    if j >= b.len() || j < 0 {
        doc_end
    } else if is_sec(b[j]) && lvl(b[j]) <= lvl(b[i]) {
        crate::infrastructure::parser::sat_dec(b[j].block().line_range.start)
    } else {
        section_end(b, i, j + 1, doc_end)
    }
}

/// The slugs of the titles of section `i` and its ancestor sections, from
/// the outermost to `i`.
pub open spec fn slug_chain(b: Seq<NodeModel>, i: int) -> Seq<Seq<char>>
    decreases i,
{
    let s = slug_of(title_of(b[i]));
    match last_lower(b, lvl(b[i]), i) {
        Some(j) => if 0 <= j < i {
            slug_chain(b, j).push(s)
        } else {
            seq![s]
        },
        None => seq![s],
    }
}

/// The canonical path of section `i`: `/` and its slug chain joined with `/`.
pub open spec fn section_path(b: Seq<NodeModel>, i: int) -> Seq<char> {
    "/"@ + join_with(slug_chain(b, i), "/"@)
}

/// The number of sections before position `k` with the same path as `i`.
pub open spec fn same_path_count(b: Seq<NodeModel>, i: int, k: int) -> nat
    decreases k,
{
    if k <= 0 {
        0
    } else if is_sec(b[k - 1]) && section_path(b, k - 1) == section_path(b, i) {
        same_path_count(b, i, k - 1) + 1
    } else {
        same_path_count(b, i, k - 1)
    }
}

/// Block `i` once placed in the tree: its parent and children set; a
/// section also gets its full line range, path and ordinal.
pub open spec fn built_node(b: Seq<NodeModel>, root: BlockId, doc_end: usize, i: int) -> NodeModel {
    let m = b[i];
    let old = m.block();
    let kid = kids(b, Some(i), b.len() as int);
    let nb = BlockModel {
        parent_id: Some(parent_block_id(b, root, i)),
        children: if kid.len() > 0 { kid } else { old.children },
        line_range: if is_sec(m) {
            LineRange { start: old.line_range.start, end: section_end(b, i, i + 1, doc_end) }
        } else {
            old.line_range
        },
        ..old
    };
    match m {
        NodeModel::Section { level, title, slug, variant, .. } => NodeModel::Section {
            block: nb,
            level,
            title,
            slug,
            path: section_path(b, i),
            ordinal: (same_path_count(b, i, i) + 1) as u32,
            variant,
        },
        _ => m.with_block(nb),
    }
}

/// The heading-level-jump warning for section `i`, if its level is more
/// than one below its parent section's.
pub open spec fn jump_diag(b: Seq<NodeModel>, i: int) -> Option<DiagModel> {
    match parent_index(b, i) {
        Some(j) => if is_sec(b[i]) && lvl(b[i]) > lvl(b[j]) + 1 {
            Some(DiagModel {
                code: "HEADING_LEVEL_JUMP"@,
                severity: Severity::Warning,
                message: "Heading level jumped from "@ + decimal(lvl(b[j]) as nat) + " to "@ + decimal(lvl(b[i]) as nat),
                line: Some(b[i].block().line_range.start),
                column: None,
                line_range: Some(b[i].block().line_range),
                suggested_fix: None,
            })
        } else {
            None
        },
        None => None,
    }
}

/// The heading-level-jump warnings of the first `k` blocks, in order.
pub open spec fn jump_diags(b: Seq<NodeModel>, k: int) -> Seq<DiagModel>
    decreases k,
{
    if k <= 0 {
        Seq::empty()
    } else {
        match jump_diag(b, k - 1) {
            Some(d) => jump_diags(b, k - 1).push(d),
            None => jump_diags(b, k - 1),
        }
    }
}

/// The shape that a flat parsed document has: root id 0, block ids strictly
/// increasing from 1, the root's children exactly the blocks in order, every
/// child id above its block's id, and start lines in document order.
pub open spec fn structure_ok(d: DocModel) -> bool {
    let b = d.blocks;
    &&& d.block.id == BlockId(0)
    &&& d.block.parent_id is None
    &&& d.block.children == Seq::new(b.len(), |i: int| b[i].block().id)
    &&& forall|i: int| 0 <= i < b.len() ==> #[trigger] b[i].block().id.0 >= 1
    &&& forall|i: int, j: int| 0 <= i < j < b.len() ==> #[trigger] b[i].block().id.0 < #[trigger] b[j].block().id.0
    &&& forall|i: int, j: int| 0 <= i < j < b.len() ==>
        #[trigger] b[i].block().line_range.start <= #[trigger] b[j].block().line_range.start
    &&& forall|i: int, k: int| 0 <= i < b.len() && 0 <= k < b[i].block().children.len() ==>
        #[trigger] b[i].block().children[k].0 > b[i].block().id.0
}

/// The document with its heading tree built from a flat parsed document.
pub open spec fn build_spec(d: DocModel) -> DocModel {
    let b = d.blocks;
    let rk = kids(b, None, b.len() as int);
    DocModel {
        block: BlockModel { children: if rk.len() > 0 { rk } else { d.block.children }, ..d.block },
        blocks: Seq::new(b.len(), |i: int| built_node(b, d.block.id, d.block.line_range.end, i)),
        diagnostics: d.diagnostics + jump_diags(b, b.len() as int),
        ..d
    }
}


// ---------------------------------------------------------------------------
// Checking the input shape
// ---------------------------------------------------------------------------

/// Whether a document has the shape of a flat parsed document.
pub fn check_structure(doc: &DocumentBlock) -> (r: bool)
    ensures
        r == structure_ok(doc@),
{
    let ghost b = doc@.blocks;
    let n = doc.block_by_id.len();
    if doc.block.id.0 != 0 || doc.block.parent_id.is_some() {
        return false;
    }
    if doc.block.children_ids.len() != n {
        proof {
            assert(doc@.block.children.len() != Seq::new(b.len(), |i: int| b[i].block().id).len());
        }
        return false;
    }
    let mut i: usize = 0;
    while i < n
        invariant
            i <= n == b.len(),
            b == doc@.blocks,
            doc.block.children_ids@.len() == n,
            forall|k: int| 0 <= k < i ==> #[trigger] doc.block.children_ids@[k] == b[k].block().id,
            forall|k: int| 0 <= k < i ==> #[trigger] b[k].block().id.0 >= 1,
            forall|x: int, y: int| 0 <= x < y < i ==> #[trigger] b[x].block().id.0 < #[trigger] b[y].block().id.0,
            forall|x: int, y: int| 0 <= x < y < i ==>
                #[trigger] b[x].block().line_range.start <= #[trigger] b[y].block().line_range.start,
            forall|x: int, k: int| 0 <= x < i && 0 <= k < b[x].block().children.len() ==>
                #[trigger] b[x].block().children[k].0 > b[x].block().id.0,
        decreases n - i,
    {
        let blk = doc.block_by_id[i].block();
        if doc.block.children_ids[i] != blk.id {
            proof {
                assert(doc@.block.children[i as int] != Seq::new(b.len(), |i: int| b[i].block().id)[i as int]);
            }
            return false;
        }
        if blk.id.0 < 1 {
            return false;
        }
        if i > 0 {
            let prev = doc.block_by_id[i - 1].block();
            if prev.id.0 >= blk.id.0 {
                proof {
                    assert(b[i - 1].block().id.0 >= b[i as int].block().id.0);
                }
                return false;
            }
            if prev.line_range.start > blk.line_range.start {
                proof {
                    assert(b[i - 1].block().line_range.start > b[i as int].block().line_range.start);
                }
                return false;
            }
        }
        let mut k: usize = 0;
        while k < blk.children_ids.len()
            invariant
                k <= blk.children_ids@.len(),
                i < b.len(),
                b == doc@.blocks,
                blk@ == b[i as int].block(),
                forall|q: int| 0 <= q < k ==> #[trigger] blk.children_ids@[q].0 > blk.id.0,
            decreases blk.children_ids@.len() - k,
        {
            if blk.children_ids[k].0 <= blk.id.0 {
                proof {
                    assert(b[i as int].block().children[k as int].0 <= b[i as int].block().id.0);
                }
                return false;
            }
            k = k + 1;
        }
        proof {
            assert forall|x: int, y: int| 0 <= x < y < i + 1 implies
                #[trigger] b[x].block().id.0 < #[trigger] b[y].block().id.0 by {
                if y == i && x < i - 1 {
                    assert(b[x].block().id.0 < b[i - 1].block().id.0);
                }
            }
            assert forall|x: int, y: int| 0 <= x < y < i + 1 implies
                #[trigger] b[x].block().line_range.start <= #[trigger] b[y].block().line_range.start by {
                if y == i && x < i - 1 {
                    assert(b[x].block().line_range.start <= b[i - 1].block().line_range.start);
                }
            }
        }
        i = i + 1;
    }
    assert(doc@.block.children =~= Seq::new(b.len(), |i: int| b[i].block().id));
    true
}

// ---------------------------------------------------------------------------
// Parents: the heading stack
// ---------------------------------------------------------------------------

/// The last stack entry whose level is below `l`.
pub open spec fn top_lower(st: Seq<(u8, usize)>, l: int) -> Option<int>
    decreases st.len(),
{
    if st.len() == 0 {
        None
    } else if (st.last().0 as int) < l {
        Some(st.last().1 as int)
    } else {
        top_lower(st.drop_last(), l)
    }
}

/// The level of a node as the exec code reads it.
fn level_of(n: &BlockNode) -> (r: Option<u8>)
    ensures
        r matches Some(l) ==> is_sec(n@) && lvl(n@) == l as int,
        r is None ==> !is_sec(n@),
{
    match n {
        BlockNode::Section(s) => Some(s.level),
        _ => None,
    }
}

/// The parent position of every block, by the heading stack.
fn compute_parents(nodes: &Vec<BlockNode>) -> (r: Vec<Option<usize>>)
    ensures
        r@.len() == nodes@.len(),
        forall|i: int| 0 <= i < nodes@.len() ==> match #[trigger] r@[i] {
            Some(j) => parent_index(node_views(nodes@), i) == Some(j as int),
            None => parent_index(node_views(nodes@), i) is None,
        },
{
    let ghost b = node_views(nodes@);
    let n = nodes.len();
    let mut stack: Vec<(u8, usize)> = Vec::new();
    let mut current_section: Option<usize> = None;
    let mut current_list: Option<usize> = None;
    let mut parents: Vec<Option<usize>> = Vec::new();
    let mut i: usize = 0;
    while i < n
        invariant
            i <= n == b.len(),
            b == node_views(nodes@),
            parents@.len() == i,
            forall|k: int| 0 <= k < i ==> match #[trigger] parents@[k] {
                Some(j) => parent_index(b, k) == Some(j as int),
                None => parent_index(b, k) is None,
            },
            forall|l: int| #[trigger] last_lower(b, l, i as int) == top_lower(stack@, l),
            match current_section {
                Some(j) => last_section(b, i as int) == Some(j as int),
                None => last_section(b, i as int) is None,
            },
            match current_list {
                Some(j) => last_list(b, i as int) == Some(j as int),
                None => last_list(b, i as int) is None,
            },
        decreases n - i,
    {
        let is_item = match &nodes[i] {
            BlockNode::ListItem(_) => true,
            _ => false,
        };
        let is_list = match &nodes[i] {
            BlockNode::List(_) => true,
            _ => false,
        };
        assert(is_item == (b[i as int] is ListItem));
        assert(is_list == (b[i as int] is List));
        match level_of(&nodes[i]) {
            Some(level) => {
                let ghost orig = stack@;
                while stack.len() > 0 && stack[stack.len() - 1].0 >= level
                    invariant
                        forall|l: int| l <= level ==> #[trigger] top_lower(stack@, l) == top_lower(orig, l),
                    decreases stack@.len(),
                {
                    let ghost before = stack@;
                    stack.pop();
                    proof {
                        assert forall|l: int| l <= level implies #[trigger] top_lower(stack@, l) == top_lower(orig, l) by {
                            assert(before.drop_last() =~= stack@);
                            assert(top_lower(before, l) == top_lower(stack@, l));
                        }
                    }
                }
                let parent = if stack.len() > 0 { Some(stack[stack.len() - 1].1) } else { None };
                proof {
                    assert(top_lower(stack@, level as int) == top_lower(orig, level as int));
                    assert(last_lower(b, level as int, i as int) == top_lower(orig, level as int));
                }
                parents.push(parent);
                let ghost popped = stack@;
                stack.push((level, i));
                proof {
                    assert forall|l: int| #[trigger] last_lower(b, l, i + 1) == top_lower(stack@, l) by {
                        assert(stack@.drop_last() =~= popped);
                        if level < l {
                        } else {
                            assert(top_lower(popped, l) == top_lower(orig, l));
                            assert(last_lower(b, l, i as int) == top_lower(orig, l));
                        }
                    }
                }
                current_section = Some(i);
            },
            None => {
                if is_item && current_list.is_some() {
                    parents.push(current_list);
                } else {
                    parents.push(current_section);
                }
                proof {
                    assert forall|l: int| #[trigger] last_lower(b, l, i + 1) == top_lower(stack@, l) by {
                        assert(last_lower(b, l, i as int) == top_lower(stack@, l));
                    }
                }
            },
        }
        if is_list {
            current_list = Some(i);
        }
        i = i + 1;
    }
    parents
}


// ---------------------------------------------------------------------------
// Children, ranges, paths, diagnostics
// ---------------------------------------------------------------------------

/// A parent position as a mathematical value.
pub open spec fn opt_int(o: Option<usize>) -> Option<int> {
    match o {
        Some(j) => Some(j as int),
        None => None,
    }
}

/// Whether `parents` holds the parent position of every block.
pub open spec fn parents_ok(b: Seq<NodeModel>, parents: Seq<Option<usize>>) -> bool {
    &&& parents.len() == b.len()
    &&& forall|i: int| 0 <= i < b.len() ==> opt_int(#[trigger] parents[i]) == parent_index(b, i)
}

proof fn lemma_last_lower(b: Seq<NodeModel>, l: int, k: int)
    ensures
        last_lower(b, l, k) matches Some(j) ==> 0 <= j < k && is_sec(b[j]) && lvl(b[j]) < l,
    decreases k,
{
    if k > 0 {
        lemma_last_lower(b, l, k - 1);
    }
}

proof fn lemma_last_section(b: Seq<NodeModel>, k: int)
    ensures
        last_section(b, k) matches Some(j) ==> 0 <= j < k && is_sec(b[j]),
    decreases k,
{
    if k > 0 {
        lemma_last_section(b, k - 1);
    }
}

proof fn lemma_last_list(b: Seq<NodeModel>, k: int)
    ensures
        match last_list(b, k) {
            Some(j) => 0 <= j < k && b[j] is List && forall|q: int| j < q < k ==> !(#[trigger] b[q] is List),
            None => forall|q: int| 0 <= q < k ==> !(#[trigger] b[q] is List),
        },
    decreases k,
{
    if k > 0 {
        lemma_last_list(b, k - 1);
    }
}

/// The parent of a block comes before it; the parent of a list item that
/// follows a list is that list, and the parent of any other block is a
/// section.
pub proof fn lemma_parent_before(b: Seq<NodeModel>, i: int)
    ensures
        parent_index(b, i) matches Some(j) ==> 0 <= j < i && (if in_list(b, i) { b[j] is List } else { is_sec(b[j]) }),
        is_sec(b[i]) ==> (parent_index(b, i) matches Some(j) ==> lvl(b[j]) < lvl(b[i])),
{
    lemma_last_lower(b, lvl(b[i]), i);
    lemma_last_section(b, i);
    lemma_last_list(b, i);
}

fn compute_kids(nodes: &Vec<BlockNode>, parents: &Vec<Option<usize>>, p: Option<usize>) -> (r: Vec<BlockId>)
    requires
        parents_ok(node_views(nodes@), parents@),
    ensures
        r@ == kids(node_views(nodes@), opt_int(p), nodes@.len() as int),
{
    let ghost b = node_views(nodes@);
    let mut out: Vec<BlockId> = Vec::new();
    let mut j: usize = 0;
    while j < nodes.len()
        invariant
            j <= nodes@.len(),
            b == node_views(nodes@),
            parents_ok(b, parents@),
            out@ == kids(b, opt_int(p), j as int),
        decreases nodes@.len() - j,
    {
        let same = match (parents[j], p) {
            (Some(x), Some(y)) => x == y,
            (None, None) => true,
            _ => false,
        };
        assert(same == (parent_index(b, j as int) == opt_int(p))) by {
            assert(opt_int(parents@[j as int]) == parent_index(b, j as int));
        }
        if same {
            out.push(nodes[j].block().id);
        }
        j = j + 1;
    }
    out
}

fn compute_section_end(nodes: &Vec<BlockNode>, i: usize, level: u8, doc_end: usize) -> (r: usize)
    requires
        i < nodes@.len(),
        lvl(node_views(nodes@)[i as int]) == level as int,
    ensures
        r == section_end(node_views(nodes@), i as int, i + 1, doc_end),
{
    let ghost b = node_views(nodes@);
    let n = nodes.len();
    let mut j: usize = i + 1;
    while j < nodes.len()
        invariant
            i < j <= nodes@.len(),
            b == node_views(nodes@),
            lvl(b[i as int]) == level as int,
            section_end(b, i as int, i + 1, doc_end) == section_end(b, i as int, j as int, doc_end),
        decreases nodes@.len() - j,
    {
        match level_of(&nodes[j]) {
            Some(other) => {
                if other <= level {
                    let start = nodes[j].block().line_range.start;
                    return if start >= 1 { start - 1 } else { 0 };
                }
            },
            None => {},
        }
        j = j + 1;
    }
    doc_end
}

proof fn lemma_join_push(parts: Seq<Seq<char>>, s: Seq<char>)
    requires
        parts.len() > 0,
    ensures
        join_with(parts.push(s), "/"@) == join_with(parts, "/"@) + "/"@ + s,
{
    assert(parts.push(s).drop_last() =~= parts);
}

proof fn lemma_section_path_step(b: Seq<NodeModel>, i: int)
    requires
        0 <= i < b.len(),
    ensures
        match last_lower(b, lvl(b[i]), i) {
            Some(j) => section_path(b, i) == section_path(b, j) + "/"@ + slug_of(title_of(b[i])),
            None => section_path(b, i) == "/"@ + slug_of(title_of(b[i])),
        },
{
    lemma_last_lower(b, lvl(b[i]), i);
    let s = slug_of(title_of(b[i]));
    match last_lower(b, lvl(b[i]), i) {
        Some(j) => {
            lemma_chain_nonempty(b, j);
            lemma_join_push(slug_chain(b, j), s);
            assert(section_path(b, i) =~= section_path(b, j) + "/"@ + s);
        },
        None => {
            assert(join_with(seq![s], "/"@) == s);
        },
    }
}

proof fn lemma_chain_nonempty(b: Seq<NodeModel>, i: int)
    ensures
        slug_chain(b, i).len() > 0,
    decreases i,
{
    match last_lower(b, lvl(b[i]), i) {
        Some(j) => if 0 <= j < i {
            lemma_chain_nonempty(b, j);
        },
        None => {},
    }
}

fn title_chars(n: &BlockNode) -> (r: Vec<char>)
    ensures
        r@ == title_of(n@),
{
    match n {
        BlockNode::Section(s) => chars_of(s.title.as_str()),
        _ => Vec::new(),
    }
}

/// The path of every section (empty for other blocks).
fn compute_paths(nodes: &Vec<BlockNode>, parents: &Vec<Option<usize>>) -> (r: Vec<Vec<char>>)
    requires
        parents_ok(node_views(nodes@), parents@),
    ensures
        r@.len() == nodes@.len(),
        forall|i: int| 0 <= i < nodes@.len() && is_sec(node_views(nodes@)[i]) ==>
            #[trigger] r@[i]@ == section_path(node_views(nodes@), i),
{
    let ghost b = node_views(nodes@);
    let mut paths: Vec<Vec<char>> = Vec::new();
    let mut i: usize = 0;
    while i < nodes.len()
        invariant
            i <= nodes@.len(),
            b == node_views(nodes@),
            parents_ok(b, parents@),
            paths@.len() == i,
            forall|k: int| 0 <= k < i && is_sec(b[k]) ==> #[trigger] paths@[k]@ == section_path(b, k),
        decreases nodes@.len() - i,
    {
        match level_of(&nodes[i]) {
            Some(_) => {
                let title = title_chars(&nodes[i]);
                let slug = crate::infrastructure::parser::slug_of_chars(title.as_slice());
                let mut path: Vec<char> = Vec::new();
                proof {
                    reveal_strlit("/");
                    lemma_section_path_step(b, i as int);
                    lemma_parent_before(b, i as int);
                    assert(opt_int(parents@[i as int]) == parent_index(b, i as int));
                }
                match parents[i] {
                    Some(j) => {
                        append(&mut path, paths[j].as_slice());
                        path.push('/');
                        append(&mut path, slug.as_slice());
                        proof {
                            assert(paths@[j as int]@ == section_path(b, j as int));
                            assert(path@ =~= section_path(b, j as int) + "/"@ + slug_of(title_of(b[i as int])));
                        }
                    },
                    None => {
                        path.push('/');
                        append(&mut path, slug.as_slice());
                        assert(path@ =~= "/"@ + slug_of(title_of(b[i as int])));
                    },
                }
                paths.push(path);
            },
            None => {
                paths.push(Vec::new());
            },
        }
        i = i + 1;
    }
    paths
}

proof fn lemma_ids_grow(b: Seq<NodeModel>, i: int)
    requires
        0 <= i < b.len(),
        forall|k: int| 0 <= k < b.len() ==> #[trigger] b[k].block().id.0 >= 1,
        forall|x: int, y: int| 0 <= x < y < b.len() ==> #[trigger] b[x].block().id.0 < #[trigger] b[y].block().id.0,
    ensures
        b[i].block().id.0 >= i + 1,
    decreases i,
{
    if i > 0 {
        lemma_ids_grow(b, i - 1);
        assert(b[i - 1].block().id.0 < b[i].block().id.0);
    }
}

proof fn lemma_count_bound(b: Seq<NodeModel>, i: int, k: int)
    ensures
        same_path_count(b, i, k) <= if k >= 0 { k } else { 0 },
    decreases k,
{
    if k > 0 {
        lemma_count_bound(b, i, k - 1);
    }
}

/// The ordinal of every section (0 for other blocks).
fn compute_ordinals(nodes: &Vec<BlockNode>, paths: &Vec<Vec<char>>) -> (r: Vec<u32>)
    requires
        paths@.len() == nodes@.len(),
        nodes@.len() <= u32::MAX,
        forall|i: int| 0 <= i < nodes@.len() && is_sec(node_views(nodes@)[i]) ==>
            #[trigger] paths@[i]@ == section_path(node_views(nodes@), i),
    ensures
        r@.len() == nodes@.len(),
        forall|i: int| 0 <= i < nodes@.len() && is_sec(node_views(nodes@)[i]) ==>
            #[trigger] r@[i] == (same_path_count(node_views(nodes@), i, i) + 1) as u32,
{
    let ghost b = node_views(nodes@);
    let mut out: Vec<u32> = Vec::new();
    let mut i: usize = 0;
    while i < nodes.len()
        invariant
            i <= nodes@.len() <= u32::MAX,
            b == node_views(nodes@),
            paths@.len() == nodes@.len(),
            forall|q: int| 0 <= q < nodes@.len() && is_sec(b[q]) ==> #[trigger] paths@[q]@ == section_path(b, q),
            out@.len() == i,
            forall|q: int| 0 <= q < i && is_sec(b[q]) ==> #[trigger] out@[q] == (same_path_count(b, q, q) + 1) as u32,
        decreases nodes@.len() - i,
    {
        if level_of(&nodes[i]).is_some() {
            let mut count: u32 = 0;
            let mut k: usize = 0;
            while k < i
                invariant
                    k <= i < nodes@.len() <= u32::MAX,
                    b == node_views(nodes@),
                    is_sec(b[i as int]),
                    paths@.len() == nodes@.len(),
                    forall|q: int| 0 <= q < nodes@.len() && is_sec(b[q]) ==> #[trigger] paths@[q]@ == section_path(b, q),
                    count == same_path_count(b, i as int, k as int),
                decreases i - k,
            {
                proof {
                    lemma_count_bound(b, i as int, k as int);
                }
                if level_of(&nodes[k]).is_some() && chars_eq(paths[k].as_slice(), paths[i].as_slice()) {
                    count = count + 1;
                }
                k = k + 1;
            }
            proof {
                lemma_count_bound(b, i as int, i as int);
            }
            out.push(count + 1);
        } else {
            out.push(0);
        }
        i = i + 1;
    }
    out
}

fn jump_message(parent_level: u8, level: u8) -> (r: String)
    ensures
        r@ == "Heading level jumped from "@ + decimal(parent_level as nat) + " to "@ + decimal(level as nat),
{
    let mut m = chars_of("Heading level jumped from ");
    let a = decimal_chars(parent_level as usize);
    append(&mut m, a.as_slice());
    let to = chars_of(" to ");
    append(&mut m, to.as_slice());
    let c = decimal_chars(level as usize);
    append(&mut m, c.as_slice());
    string_of(m.as_slice())
}

fn compute_jump_diagnostics(nodes: &Vec<BlockNode>, parents: &Vec<Option<usize>>) -> (r: Vec<Diagnostic>)
    requires
        parents_ok(node_views(nodes@), parents@),
    ensures
        diag_views(r@) == jump_diags(node_views(nodes@), nodes@.len() as int),
{
    let ghost b = node_views(nodes@);
    let mut out: Vec<Diagnostic> = Vec::new();
    let mut i: usize = 0;
    while i < nodes.len()
        invariant
            i <= nodes@.len(),
            b == node_views(nodes@),
            parents_ok(b, parents@),
            diag_views(out@) == jump_diags(b, i as int),
        decreases nodes@.len() - i,
    {
        proof {
            assert(opt_int(parents@[i as int]) == parent_index(b, i as int));
            lemma_parent_before(b, i as int);
        }
        match (level_of(&nodes[i]), parents[i]) {
            (Some(level), Some(j)) => {
                match level_of(&nodes[j]) {
                    Some(parent_level) => {
                        if (level as u16) > (parent_level as u16) + 1 {
                            let range = nodes[i].block().line_range;
                            let d = Diagnostic {
                                code: string_of(chars_of("HEADING_LEVEL_JUMP").as_slice()),
                                severity: Severity::Warning,
                                message: jump_message(parent_level, level),
                                line: Some(range.start),
                                column: None,
                                line_range: Some(range),
                                suggested_fix: None,
                            };
                            let ghost before = diag_views(out@);
                            out.push(d);
                            assert(diag_views(out@) =~= before.push(d@));
                        }
                    },
                    None => {},
                }
            },
            _ => {},
        }
        i = i + 1;
    }
    out
}


// ---------------------------------------------------------------------------
// Assembly
// ---------------------------------------------------------------------------

/// A node placed in the tree: parent set, children replaced when it has
/// some, a section's last line, path and ordinal set.
pub open spec fn placed(m: NodeModel, parent: BlockId, kids: Seq<BlockId>, end: usize, path: Seq<char>, ordinal: u32) -> NodeModel {
    let old = m.block();
    let nb = BlockModel {
        parent_id: Some(parent),
        children: if kids.len() > 0 { kids } else { old.children },
        line_range: if is_sec(m) { LineRange { start: old.line_range.start, end } } else { old.line_range },
        ..old
    };
    match m {
        NodeModel::Section { level, title, slug, variant, .. } => NodeModel::Section {
            block: nb,
            level,
            title,
            slug,
            path,
            ordinal,
            variant,
        },
        _ => m.with_block(nb),
    }
}

fn place(node: BlockNode, parent: BlockId, kids: Vec<BlockId>, end: usize, path: Vec<char>, ordinal: u32) -> (r: BlockNode)
    ensures
        r@ == placed(node@, parent, kids@, end, path@, ordinal),
{
    let ghost m = node@;
    let is_section = level_of(&node).is_some();
    let mut node = node;
    let has_kids = kids.len() > 0;
    {
        let b = node.block_mut();
        b.parent_id = Some(parent);
        if has_kids {
            b.children_ids = kids;
        }
        if is_section {
            b.line_range = LineRange { start: b.line_range.start, end };
        }
    }
    match node {
        BlockNode::Section(mut s) => {
            s.path = string_of(path.as_slice());
            s.ordinal = ordinal;
            BlockNode::Section(s)
        },
        other => other,
    }
}

/// Builds the heading tree of a flat parsed document: section parents by
/// the heading stack, other blocks under the nearest earlier section,
/// children lists, section line ranges, canonical paths and ordinals, and a
/// warning for each heading level jump. Fails (`Parse`) when the document
/// does not have the shape of a flat parsed document.
pub fn build_tree_from(doc: DocumentBlock) -> (r: Result<DocumentBlock, MdtoolError>)
    ensures
        r is Ok <==> structure_ok(doc@),
        r matches Ok(d) ==> d@ == build_spec(doc@),
        r matches Err(e) ==> e is Parse,
{
    if !check_structure(&doc) {
        return Err(MdtoolError::Parse(string_of(chars_of("blocks are not in document order").as_slice())));
    }
    let ghost d0 = doc@;
    let ghost b = node_views(doc.block_by_id@);
    let n = doc.block_by_id.len();
    proof {
        if n > 0 {
            lemma_ids_grow(b, n - 1);
        }
    }
    let parents = compute_parents(&doc.block_by_id);
    proof {
        assert forall|i: int| 0 <= i < b.len() implies opt_int(#[trigger] parents@[i]) == parent_index(b, i) by {
            match parents@[i] {
                Some(j) => {},
                None => {},
            }
        }
    }
    let mut diags = compute_jump_diagnostics(&doc.block_by_id, &parents);
    let paths = compute_paths(&doc.block_by_id, &parents);
    let ordinals = compute_ordinals(&doc.block_by_id, &paths);
    let root_id = doc.block.id;
    let doc_end = doc.block.line_range.end;
    let mut kid_lists: Vec<Vec<BlockId>> = Vec::new();
    let mut ends: Vec<usize> = Vec::new();
    let mut parent_ids: Vec<BlockId> = Vec::new();
    let mut i: usize = 0;
    while i < n
        invariant
            i <= n == b.len(),
            b == node_views(doc.block_by_id@),
            parents_ok(b, parents@),
            kid_lists@.len() == i,
            ends@.len() == i,
            parent_ids@.len() == i,
            forall|k: int| 0 <= k < i ==> #[trigger] kid_lists@[k]@ == kids(b, Some(k), n as int),
            forall|k: int| 0 <= k < i && is_sec(b[k]) ==> #[trigger] ends@[k] == section_end(b, k, k + 1, doc_end),
            forall|k: int| 0 <= k < i ==> #[trigger] parent_ids@[k] == parent_block_id(b, root_id, k),
        decreases n - i,
    {
        kid_lists.push(compute_kids(&doc.block_by_id, &parents, Some(i)));
        match level_of(&doc.block_by_id[i]) {
            Some(level) => ends.push(compute_section_end(&doc.block_by_id, i, level, doc_end)),
            None => ends.push(0),
        }
        proof {
            assert(opt_int(parents@[i as int]) == parent_index(b, i as int));
            lemma_parent_before(b, i as int);
        }
        let pid = match parents[i] {
            Some(j) => doc.block_by_id[j].block().id,
            None => root_id,
        };
        parent_ids.push(pid);
        i = i + 1;
    }
    let root_kids = compute_kids(&doc.block_by_id, &parents, None);
    let DocumentBlock { block: mut root, source_text, normalized_text, line_starts, block_by_id, diagnostics: mut all_diags, metadata } = doc;
    let mut rest = block_by_id;
    let mut kid_rest = kid_lists;
    let mut path_rest = paths;
    let mut out: Vec<BlockNode> = Vec::new();
    let mut i: usize = 0;
    while i < n
        invariant
            i <= n == b.len(),
            node_views(rest@) == b.skip(i as int),
            kid_rest@.len() == n - i,
            path_rest@.len() == n - i,
            ends@.len() == n,
            parent_ids@.len() == n,
            ordinals@.len() == n,
            forall|k: int| 0 <= k < n - i ==> #[trigger] kid_rest@[k]@ == kids(b, Some(k + i), n as int),
            forall|k: int| 0 <= k < n - i && is_sec(b[k + i]) ==> #[trigger] path_rest@[k]@ == section_path(b, k + i),
            forall|k: int| 0 <= k < n && is_sec(b[k]) ==> #[trigger] ends@[k] == section_end(b, k, k + 1, doc_end),
            forall|k: int| 0 <= k < n ==> #[trigger] parent_ids@[k] == parent_block_id(b, root_id, k),
            forall|k: int| 0 <= k < n && is_sec(b[k]) ==> #[trigger] ordinals@[k] == (same_path_count(b, k, k) + 1) as u32,
            node_views(out@) == Seq::new(i as nat, |k: int| built_node(b, root_id, doc_end, k)),
        decreases n - i,
    {
        let ghost rv = node_views(rest@);
        let ghost kr = kid_rest@;
        let ghost pr = path_rest@;
        assert(rv.len() == rest@.len());
        assert(rv.len() == n - i);
        let ghost rs = rest@;
        let node = rest.remove(0);
        let kids_i = kid_rest.remove(0);
        let path_i = path_rest.remove(0);
        proof {
            assert(node@ == rv[0]);
            assert(rv[0] == b[i as int]);
            assert forall|k: int| 0 <= k < rest@.len() implies #[trigger] node_views(rest@)[k] == b.skip(i + 1)[k] by {
                assert(rest@[k] == rs[k + 1]);
                assert(rv[k + 1] == b[i + 1 + k]);
            }
            assert(node_views(rest@) =~= b.skip(i + 1));
            assert(kids_i@ == kids(b, Some(i as int), n as int));
            assert forall|k: int| 0 <= k < n - (i + 1) implies #[trigger] kid_rest@[k]@ == kids(b, Some(k + (i + 1)), n as int) by {
                assert(kid_rest@[k] == kr[k + 1]);
            }
            assert forall|k: int| 0 <= k < n - (i + 1) && is_sec(b[k + (i + 1)]) implies #[trigger] path_rest@[k]@ == section_path(b, k + (i + 1)) by {
                assert(path_rest@[k] == pr[k + 1]);
            }
        }
        let placed_node = place(node, parent_ids[i], kids_i, ends[i], path_i, ordinals[i]);
        proof {
            if is_sec(b[i as int]) {
                assert(path_i@ == section_path(b, i as int));
            }
            assert(placed_node@ == built_node(b, root_id, doc_end, i as int));
        }
        let ghost before = node_views(out@);
        let ghost pv = placed_node@;
        out.push(placed_node);
        assert(node_views(out@) =~= before.push(pv));
        assert(node_views(out@) =~= Seq::new((i + 1) as nat, |k: int| built_node(b, root_id, doc_end, k)));
        i = i + 1;
    }
    if root_kids.len() > 0 {
        root.children_ids = root_kids;
    }
    let ghost old_diags = diag_views(all_diags@);
    let ghost new_diags = diag_views(diags@);
    all_diags.append(&mut diags);
    let result = DocumentBlock { block: root, source_text, normalized_text, line_starts, block_by_id: out, diagnostics: all_diags, metadata };
    proof {
        assert(diag_views(result.diagnostics@) =~= old_diags + new_diags);
        assert(result@.blocks =~= build_spec(d0).blocks);
        assert(result@.metadata =~= d0.metadata);
    }
    Ok(result)
}

/// Whether a text builds into a tree: the ids that comrak's syntax tree of
/// it needs fit in `u32`, and the flat blocks come in document order.
pub open spec fn buildable(source: Seq<char>) -> bool {
    &&& ids_fit(gfm_tree(preprocess_spec(source)))
    &&& structure_ok(gfm_doc(source))
}

/// Whether `d` is the tree built from `source`: the flat blocks of comrak's
/// syntax tree of it, in document order, arranged under their headings.
pub open spec fn built_from(source: Seq<char>, d: DocModel) -> bool {
    &&& buildable(source)
    &&& d == build_spec(gfm_doc(source))
}

/// Build a complete DocumentBlock with tree structure from markdown source:
/// parse to flat blocks, then build the heading tree.
pub fn build_tree(source: &str) -> (r: Result<DocumentBlock, MdtoolError>)
    ensures
        r is Ok <==> buildable(source@),
        r matches Ok(d) ==> built_from(source@, d@),
        r matches Err(e) ==> e is Parse,
{
    let doc = parse_markdown(source)?;
    let r = build_tree_from(doc);
    r
}

/// The blocks of a tree built from a text have distinct ids, all of them
/// other than the root's: a lookup by id finds at most one block.
pub proof fn law_built_ids_are_unique(source: Seq<char>, d: DocModel)
    requires
        built_from(source, d),
    ensures
        forall|i: int, j: int| 0 <= i < j < d.blocks.len() ==> #[trigger] d.blocks[i].block().id != #[trigger] d.blocks[j].block().id,
        forall|i: int| 0 <= i < d.blocks.len() ==> #[trigger] d.blocks[i].block().id != d.block.id,
{
    let f = gfm_doc(source);
    let b = f.blocks;
    assert forall|i: int, j: int| 0 <= i < j < d.blocks.len() implies #[trigger] d.blocks[i].block().id != #[trigger] d.blocks[j].block().id by {
        assert(d.blocks[i] == built_node(b, f.block.id, f.block.line_range.end, i));
        assert(d.blocks[j] == built_node(b, f.block.id, f.block.line_range.end, j));
        assert(b[i].block().id.0 < b[j].block().id.0);
    }
    assert forall|i: int| 0 <= i < d.blocks.len() implies #[trigger] d.blocks[i].block().id != d.block.id by {
        assert(d.blocks[i] == built_node(b, f.block.id, f.block.line_range.end, i));
        assert(b[i].block().id.0 >= 1);
    }
}

/// A tree built from a text is well founded.
pub proof fn law_built_from_is_well_founded(source: Seq<char>, d: DocModel)
    requires
        built_from(source, d),
    ensures
        crate::domain::document::wf(d),
{
    law_built_tree_is_well_founded(gfm_doc(source));
}


// ---------------------------------------------------------------------------
// Laws of the built tree
// ---------------------------------------------------------------------------

proof fn lemma_kid_source(b: Seq<NodeModel>, p: Option<int>, k: int, q: int) -> (j: int)
    requires
        0 <= q < kids(b, p, k).len(),
    ensures
        0 <= j < k,
        parent_index(b, j) == p,
        kids(b, p, k)[q] == b[j].block().id,
    decreases k,
{
    if k <= 0 {
        0
    } else if parent_index(b, k - 1) == p {
        if q < kids(b, p, k - 1).len() {
            lemma_kid_source(b, p, k - 1, q)
        } else {
            k - 1
        }
    } else {
        lemma_kid_source(b, p, k - 1, q)
    }
}

proof fn lemma_kids_has(b: Seq<NodeModel>, p: Option<int>, k: int, j: int)
    requires
        0 <= j < k <= b.len(),
        parent_index(b, j) == p,
    ensures
        kids(b, p, k).contains(b[j].block().id),
    decreases k,
{
    if j < k - 1 {
        lemma_kids_has(b, p, k - 1, j);
        if parent_index(b, k - 1) == p {
            assert(kids(b, p, k) == kids(b, p, k - 1).push(b[k - 1].block().id));
            let w = choose|w: int| 0 <= w < kids(b, p, k - 1).len() && #[trigger] kids(b, p, k - 1)[w] == b[j].block().id;
            assert(kids(b, p, k)[w] == b[j].block().id);
        }
    } else {
        let q = kids(b, p, k - 1).len() as int;
        assert(kids(b, p, k)[q] == b[j].block().id);
    }
}

/// Every block of a built tree is listed among the children of its parent:
/// the block the heading tree puts it under, or the root.
pub proof fn law_parent_lists_its_child(d: DocModel, j: int)
    requires
        structure_ok(d),
        0 <= j < d.blocks.len(),
    ensures
        ({
            let r = build_spec(d);
            match parent_index(d.blocks, j) {
                Some(i) => 0 <= i < r.blocks.len() && r.blocks[j].block().parent_id == Some(r.blocks[i].block().id)
                    && r.blocks[i].block().children.contains(r.blocks[j].block().id),
                None => r.blocks[j].block().parent_id == Some(r.block.id) && r.block.children.contains(r.blocks[j].block().id),
            }
        }),
{
    let b = d.blocks;
    let n = b.len() as int;
    let r = build_spec(d);
    assert(r.blocks[j] == built_node(b, d.block.id, d.block.line_range.end, j));
    lemma_parent_before(b, j);
    lemma_kids_has(b, parent_index(b, j), n, j);
    match parent_index(b, j) {
        Some(i) => {
            assert(r.blocks[i] == built_node(b, d.block.id, d.block.line_range.end, i));
            assert(kids(b, Some(i), n).len() > 0);
        },
        None => {
            assert(kids(b, None, n).len() > 0);
        },
    }
}

/// In a tree built from a text, every child that a block lists names that
/// block as its parent: the children of a block are the blocks that the
/// heading tree puts under it.
pub proof fn law_children_name_their_parent(source: Seq<char>, d: DocModel, i: int, k: int)
    requires
        built_from(source, d),
        0 <= i < d.blocks.len(),
        0 <= k < d.blocks[i].block().children.len(),
    ensures
        exists|j: int|
            0 <= j < d.blocks.len() && #[trigger] d.blocks[j].block().id == d.blocks[i].block().children[k]
                && d.blocks[j].block().parent_id == Some(d.blocks[i].block().id),
{
    let f = gfm_doc(source);
    let b = f.blocks;
    let n = b.len() as int;
    let t = gfm_tree(preprocess_spec(source));
    crate::infrastructure::parser::lemma_extract_all_children(t.children@, t.children@.len());
    assert(b == crate::infrastructure::parser::extract_all(t.children@, t.children@.len()).0);
    assert(d.blocks[i] == built_node(b, f.block.id, f.block.line_range.end, i));
    if kids(b, Some(i), n).len() == 0 {
        assert(b[i].block().children.len() > 0);
        assert(b[i] is List && i + 1 < b.len() && b[i + 1] is ListItem);
        assert(last_list(b, i + 1) == Some(i));
        assert(parent_index(b, i + 1) == Some(i));
        lemma_kids_has(b, Some(i), n, i + 1);
    }
    let j = lemma_kid_source(b, Some(i), n, k);
    assert(d.blocks[j] == built_node(b, f.block.id, f.block.line_range.end, j));
    assert(d.blocks[j].block().id == d.blocks[i].block().children[k]);
}

/// In a tree built from a text, no block is listed as a child by two
/// blocks.
pub proof fn law_child_listed_once(source: Seq<char>, d: DocModel, i1: int, k1: int, i2: int, k2: int)
    requires
        built_from(source, d),
        0 <= i1 < d.blocks.len(),
        0 <= k1 < d.blocks[i1].block().children.len(),
        0 <= i2 < d.blocks.len(),
        0 <= k2 < d.blocks[i2].block().children.len(),
        d.blocks[i1].block().children[k1] == d.blocks[i2].block().children[k2],
    ensures
        i1 == i2,
{
    law_children_name_their_parent(source, d, i1, k1);
    law_children_name_their_parent(source, d, i2, k2);
    law_built_ids_are_unique(source, d);
    let j1 = choose|j: int|
        0 <= j < d.blocks.len() && #[trigger] d.blocks[j].block().id == d.blocks[i1].block().children[k1]
            && d.blocks[j].block().parent_id == Some(d.blocks[i1].block().id);
    let j2 = choose|j: int|
        0 <= j < d.blocks.len() && #[trigger] d.blocks[j].block().id == d.blocks[i2].block().children[k2]
            && d.blocks[j].block().parent_id == Some(d.blocks[i2].block().id);
    if j1 != j2 {
        if j1 < j2 {
            assert(d.blocks[j1].block().id != d.blocks[j2].block().id);
        } else {
            assert(d.blocks[j2].block().id != d.blocks[j1].block().id);
        }
    }
    if i1 != i2 {
        if i1 < i2 {
            assert(d.blocks[i1].block().id != d.blocks[i2].block().id);
        } else {
            assert(d.blocks[i2].block().id != d.blocks[i1].block().id);
        }
    }
}

/// In a tree built from a text, parents and children agree: a block names
/// another block as its parent exactly when that block lists it among its
/// children, and names the root exactly when the root lists it; and a list
/// item's parent is a list (Document, Section, List, ListItem).
pub proof fn law_parents_and_children_agree(source: Seq<char>, d: DocModel, j: int)
    requires
        built_from(source, d),
        0 <= j < d.blocks.len(),
    ensures
        forall|i: int|
            0 <= i < d.blocks.len() ==> (d.blocks[j].block().parent_id == Some(d.blocks[i].block().id) <==> (
            #[trigger] d.blocks[i].block().children).contains(d.blocks[j].block().id)),
        d.blocks[j].block().parent_id == Some(d.block.id) <==> d.block.children.contains(d.blocks[j].block().id),
        d.blocks[j] is ListItem ==> exists|i: int|
            0 <= i < d.blocks.len() && #[trigger] d.blocks[i] is List && d.blocks[j].block().parent_id == Some(
                d.blocks[i].block().id,
            ),
{
    let f = gfm_doc(source);
    let b = f.blocks;
    let n = b.len() as int;
    let t = gfm_tree(preprocess_spec(source));
    crate::infrastructure::parser::lemma_extract_all_children(t.children@, t.children@.len());
    assert(b == crate::infrastructure::parser::extract_all(t.children@, t.children@.len()).0);
    law_built_ids_are_unique(source, d);
    law_parent_lists_its_child(f, j);
    assert(d.blocks[j] == built_node(b, f.block.id, f.block.line_range.end, j));
    assert forall|i: int|
        0 <= i < d.blocks.len() implies (d.blocks[j].block().parent_id == Some(d.blocks[i].block().id) <==> (
        #[trigger] d.blocks[i].block().children).contains(d.blocks[j].block().id)) by {
        assert(d.blocks[i] == built_node(b, f.block.id, f.block.line_range.end, i));
        if d.blocks[j].block().parent_id == Some(d.blocks[i].block().id) {
            match parent_index(b, j) {
                Some(i2) => {
                    if i2 != i {
                        if i2 < i {
                            assert(d.blocks[i2].block().id != d.blocks[i].block().id);
                        } else {
                            assert(d.blocks[i].block().id != d.blocks[i2].block().id);
                        }
                    }
                },
                None => {
                    assert(d.blocks[i].block().id != d.block.id);
                },
            }
        }
        if d.blocks[i].block().children.contains(d.blocks[j].block().id) {
            let k = choose|k: int| 0 <= k < d.blocks[i].block().children.len() && d.blocks[i].block().children[k] == d.blocks[j].block().id;
            law_children_name_their_parent(source, d, i, k);
            let j2 = choose|j2: int|
                0 <= j2 < d.blocks.len() && #[trigger] d.blocks[j2].block().id == d.blocks[i].block().children[k]
                    && d.blocks[j2].block().parent_id == Some(d.blocks[i].block().id);
            if j2 != j {
                if j2 < j {
                    assert(d.blocks[j2].block().id != d.blocks[j].block().id);
                } else {
                    assert(d.blocks[j].block().id != d.blocks[j2].block().id);
                }
            }
        }
    }
    // The root lists exactly the blocks without a parent block.
    assert(parent_index(b, 0) is None);
    lemma_kids_has(b, None, n, 0);
    assert(kids(b, None, n).len() > 0);
    assert(d.block.children == kids(b, None, n));
    if d.blocks[j].block().parent_id == Some(d.block.id) {
        match parent_index(b, j) {
            Some(i2) => {
                assert(d.blocks[i2] == built_node(b, f.block.id, f.block.line_range.end, i2));
                assert(d.blocks[i2].block().id != d.block.id);
            },
            None => {},
        }
    }
    if d.block.children.contains(d.blocks[j].block().id) {
        let q = choose|q: int| 0 <= q < d.block.children.len() && d.block.children[q] == d.blocks[j].block().id;
        let j2 = lemma_kid_source(b, None, n, q);
        assert(d.blocks[j2] == built_node(b, f.block.id, f.block.line_range.end, j2));
        if j2 != j {
            if j2 < j {
                assert(d.blocks[j2].block().id != d.blocks[j].block().id);
            } else {
                assert(d.blocks[j].block().id != d.blocks[j2].block().id);
            }
        }
    }
    if d.blocks[j] is ListItem {
        assert(b[j] is ListItem);
        lemma_last_list(b, j);
        let q = choose|q: int| 0 <= q < j && #[trigger] b[q] is List;
        assert(last_list(b, j) is Some);
        let i = last_list(b, j)->0;
        assert(parent_index(b, j) == Some(i));
        assert(d.blocks[i] == built_node(b, f.block.id, f.block.line_range.end, i));
        assert(d.blocks[i] is List);
    }
}

/// A tree built from a flat parsed document is well founded: children have
/// larger ids than their block, parents smaller ones.
pub proof fn law_built_tree_is_well_founded(d: DocModel)
    requires
        structure_ok(d),
    ensures
        crate::domain::document::wf(build_spec(d)),
{
    let b = d.blocks;
    let n = b.len() as int;
    let r = build_spec(d);
    assert forall|k: int| 0 <= k < r.block.children.len() implies #[trigger] r.block.children[k].0 > r.block.id.0 by {
        if kids(b, None, n).len() > 0 {
            let j = lemma_kid_source(b, None, n, k);
        } else {
            assert(d.block.children[k] == b[k].block().id);
        }
    }
    assert forall|i: int, k: int| 0 <= i < r.blocks.len() && 0 <= k < r.blocks[i].block().children.len() implies
        #[trigger] r.blocks[i].block().children[k].0 > r.blocks[i].block().id.0 by {
        assert(r.blocks[i] == built_node(b, d.block.id, d.block.line_range.end, i));
        if kids(b, Some(i), n).len() > 0 {
            let j = lemma_kid_source(b, Some(i), n, k);
            lemma_parent_before(b, j);
            assert(b[i].block().id.0 < b[j].block().id.0);
        }
    }
    assert forall|i: int| 0 <= i < r.blocks.len() implies (#[trigger] r.blocks[i].block().parent_id matches Some(p) ==> p.0
        < r.blocks[i].block().id.0) by {
        assert(r.blocks[i] == built_node(b, d.block.id, d.block.line_range.end, i));
        lemma_parent_before(b, i);
        assert(b[i].block().id.0 >= 1);
    }
}

/// Every section's parent is the nearest earlier section of a lower level
/// (or the root); a list item's parent is the nearest earlier list; every
/// other block's parent is the nearest earlier section (or the root).
pub proof fn law_section_parent_is_nearest_shallower(d: DocModel, i: int)
    requires
        structure_ok(d),
        0 <= i < d.blocks.len(),
    ensures
        ({
            let b = d.blocks;
            let p = build_spec(d).blocks[i].block().parent_id;
            &&& is_sec(b[i]) ==> match last_lower(b, lvl(b[i]), i) {
                Some(j) => p == Some(b[j].block().id) && j < i && is_sec(b[j]) && lvl(b[j]) < lvl(b[i])
                    && forall|k: int| j < k < i ==> !(#[trigger] is_sec(b[k]) && lvl(b[k]) < lvl(b[i])),
                None => p == Some(d.block.id) && forall|k: int| 0 <= k < i ==> !(#[trigger] is_sec(b[k]) && lvl(b[k]) < lvl(b[i])),
            }
            &&& b[i] is ListItem ==> match last_list(b, i) {
                Some(j) => p == Some(b[j].block().id) && b[j] is List && forall|k: int| j < k < i ==> !(#[trigger] b[k] is List),
                None => true,
            }
            &&& (!is_sec(b[i]) && !in_list(b, i)) ==> match last_section(b, i) {
                Some(j) => p == Some(b[j].block().id) && forall|k: int| j < k < i ==> !#[trigger] is_sec(b[k]),
                None => p == Some(d.block.id) && forall|k: int| 0 <= k < i ==> !#[trigger] is_sec(b[k]),
            }
        }),
{
    let b = d.blocks;
    assert(build_spec(d).blocks[i] == built_node(b, d.block.id, d.block.line_range.end, i));
    lemma_last_lower_nearest(b, lvl(b[i]), i);
    lemma_last_section_nearest(b, i);
    lemma_last_list(b, i);
    lemma_parent_before(b, i);
}

proof fn lemma_last_lower_nearest(b: Seq<NodeModel>, l: int, k: int)
    ensures
        match last_lower(b, l, k) {
            Some(j) => 0 <= j < k && is_sec(b[j]) && lvl(b[j]) < l && forall|q: int| j < q < k ==> !(#[trigger] is_sec(b[q]) && lvl(b[q]) < l),
            None => forall|q: int| 0 <= q < k ==> !(#[trigger] is_sec(b[q]) && lvl(b[q]) < l),
        },
    decreases k,
{
    if k > 0 {
        lemma_last_lower_nearest(b, l, k - 1);
    }
}

proof fn lemma_last_section_nearest(b: Seq<NodeModel>, k: int)
    ensures
        match last_section(b, k) {
            Some(j) => 0 <= j < k && is_sec(b[j]) && forall|q: int| j < q < k ==> !#[trigger] is_sec(b[q]),
            None => forall|q: int| 0 <= q < k ==> !#[trigger] is_sec(b[q]),
        },
    decreases k,
{
    if k > 0 {
        lemma_last_section_nearest(b, k - 1);
    }
}

} // verus!
