use vstd::prelude::*;

use crate::domain::block::{Block, BlockModel};
use crate::domain::block_node::{BlockNode, NodeModel};
pub use crate::domain::document::children_of;
use crate::domain::document::{
    acyclic, child_rank, lemma_acyclic_kids, lookup, node_of, parent_of, parent_rank, parents_acyclic, ranks_parents, DocModel,
    DocumentBlock,
};
use crate::primitives::BlockId;
use crate::text::{chars_eq, chars_of};

verus! {

broadcast use vstd::std_specs::vec::group_vec_axioms;

// ---------------------------------------------------------------------------
// Specifications
// ---------------------------------------------------------------------------

/// The pre-order walk of the subtree at `id`: the block itself, then the
/// walks of its children from left to right. A child that does not rank
/// below its block (see [`child_rank`]) would close a cycle; the walk does
/// not descend into it (in an acyclic tree there is none).
pub open spec fn walk_spec(d: DocModel, id: BlockId) -> Seq<BlockId>
    decreases child_rank(d)(id), 1int, 0int,
{
    let cs = children_of(d, id);
    seq![id] + walk_kids(d, id, cs, cs.len() as int)
}

/// The walks of the first `k` of the children `cs` of block `id`, joined.
pub open spec fn walk_kids(d: DocModel, id: BlockId, cs: Seq<BlockId>, k: int) -> Seq<BlockId>
    decreases child_rank(d)(id), 0int, k,
{
    if k <= 0 {
        Seq::empty()
    } else {
        let c = cs[k - 1];
        let rest = walk_kids(d, id, cs, k - 1);
        if child_rank(d)(c) < child_rank(d)(id) {
            rest + walk_spec(d, c)
        } else {
            rest.push(c)
        }
    }
}

/// The ancestors of `id`, from its parent up to the root. A parent that
/// does not rank below its block (see [`parent_rank`]) would close a cycle;
/// the chain stops there (when the parent chains are acyclic there is none).
pub open spec fn ancestors_spec(d: DocModel, id: BlockId) -> Seq<BlockId>
    decreases parent_rank(d)(id),
{
    match parent_of(d, id) {
        Some(p) => if parent_rank(d)(p) < parent_rank(d)(id) {
            seq![p] + ancestors_spec(d, p)
        } else {
            seq![p]
        },
        None => Seq::empty(),
    }
}

/// The ids of the first `k` blocks whose type name is `t`, in order.
pub open spec fn ids_of_kind(blocks: Seq<NodeModel>, t: Seq<char>, k: int) -> Seq<BlockId>
    decreases k,
{
    if k <= 0 {
        Seq::empty()
    } else if blocks[k - 1].kind_name() == t {
        ids_of_kind(blocks, t, k - 1).push(blocks[k - 1].block().id)
    } else {
        ids_of_kind(blocks, t, k - 1)
    }
}

/// Whether a block is a section with the given canonical path.
pub open spec fn has_path(m: NodeModel, path: Seq<char>) -> bool {
    m matches NodeModel::Section { path: p, .. } && p == path
}

/// The id of the first section with the given path, if any.
pub open spec fn first_with_path(blocks: Seq<NodeModel>, path: Seq<char>) -> Option<BlockId> {
    if exists|i: int| 0 <= i < blocks.len() && #[trigger] has_path(blocks[i], path) {
        let i = choose|i: int| 0 <= i < blocks.len() && has_path(blocks[i], path) && forall|j: int|
            0 <= j < i ==> !#[trigger] has_path(blocks[j], path);
        Some(blocks[i].block().id)
    } else {
        None
    }
}

// ---------------------------------------------------------------------------
// Implementation
// ---------------------------------------------------------------------------

/// The block with a given id: the root block, or the first node carrying it.
pub fn get_block(doc: &DocumentBlock, id: BlockId) -> (r: Option<&Block>)
    ensures
        match r {
            Some(b) => node_of(doc@, id) == Some(b@),
            None => node_of(doc@, id) is None,
        },
{
    if id == doc.root_id() {
        Some(&doc.block)
    } else {
        match doc.get_block(id) {
            Some(bn) => Some(bn.block()),
            None => None,
        }
    }
}

fn walk_into(doc: &DocumentBlock, id: BlockId, out: &mut Vec<BlockId>)
    requires
        acyclic(doc@),
    ensures
        final(out)@ == old(out)@ + walk_spec(doc@, id),
    decreases child_rank(doc@)(id),
{
    let ghost base = old(out)@;
    out.push(id);
    let ghost d = doc@;
    let ghost cs = children_of(d, id);
    proof {
        lemma_acyclic_kids(d, id);
    }
    match get_block(doc, id) {
        Some(b) => {
            let mut i: usize = 0;
            while i < b.children_ids.len()
                invariant
                    acyclic(d),
                    d == doc@,
                    cs == b.children_ids@,
                    cs == children_of(d, id),
                    forall|k: int| 0 <= k < cs.len() ==> #[trigger] child_rank(d)(cs[k]) < child_rank(d)(id),
                    i <= cs.len(),
                    out@ == base + seq![id] + walk_kids(d, id, cs, i as int),
                decreases cs.len() - i,
            {
                let c = b.children_ids[i];
                assert(cs[i as int] == c);
                walk_into(doc, c, out);
                assert(walk_kids(d, id, cs, i + 1) == walk_kids(d, id, cs, i as int) + walk_spec(d, c));
                i = i + 1;
            }
        },
        None => {},
    }
    assert(out@ =~= base + walk_spec(d, id));
}

/// Depth-first traversal of a block and all its descendants: the block
/// itself followed by all descendants in pre-order (parent before children,
/// left to right).
pub fn walk(block_id: BlockId, doc: &DocumentBlock) -> (r: Vec<BlockId>)
    requires
        acyclic(doc@),
    ensures
        r@ == walk_spec(doc@, block_id),
{
    let mut out: Vec<BlockId> = Vec::new();
    walk_into(doc, block_id, &mut out);
    assert(out@ =~= walk_spec(doc@, block_id));
    out
}

/// The ordered list of child block IDs of a block (empty for an unknown id).
pub fn find_children(doc: &DocumentBlock, id: BlockId) -> (r: Vec<BlockId>)
    ensures
        r@ == children_of(doc@, id),
{
    match get_block(doc, id) {
        Some(b) => crate::domain::block::copy_ids(&b.children_ids),
        None => Vec::new(),
    }
}

/// Walk up the parent chain from `id` to the root, returning all ancestors
/// (excluding `id` itself) in order from immediate parent to root.
pub fn find_ancestors(doc: &DocumentBlock, id: BlockId) -> (r: Vec<BlockId>)
    requires
        parents_acyclic(doc@),
    ensures
        r@ == ancestors_spec(doc@, id),
{
    let ghost d = doc@;
    let ghost rank = parent_rank(d);
    let mut ancestors: Vec<BlockId> = Vec::new();
    let mut cur = id;
    assert(ranks_parents(d, rank));
    let mut current: Option<BlockId> = match get_block(doc, id) {
        Some(b) => b.parent_id,
        None => None,
    };
    assert(current == parent_of(d, cur));
    assert(ancestors@ + ancestors_spec(d, cur) == ancestors_spec(d, id));
    while current.is_some()
        invariant
            ranks_parents(d, rank),
            rank == parent_rank(d),
            d == doc@,
            current == parent_of(d, cur),
            ancestors@ + ancestors_spec(d, cur) == ancestors_spec(d, id),
        decreases rank(cur),
    {
        let p = current.unwrap();
        let ghost before = ancestors@;
        assert(rank(p) < rank(cur));
        ancestors.push(p);
        assert(ancestors_spec(d, cur) == seq![p] + ancestors_spec(d, p));
        assert(ancestors@ + ancestors_spec(d, p) =~= before + ancestors_spec(d, cur));
        cur = p;
        current = match get_block(doc, p) {
            Some(b) => b.parent_id,
            None => None,
        };
    }
    assert(ancestors_spec(d, cur) =~= Seq::<BlockId>::empty());
    assert(ancestors@ =~= ancestors_spec(d, id));
    ancestors
}

/// All block IDs whose type name matches the given type string, in order.
pub fn find_by_type(doc: &DocumentBlock, block_type: &str) -> (r: Vec<BlockId>)
    ensures
        r@ == ids_of_kind(doc@.blocks, block_type@, doc@.blocks.len() as int),
{
    let want = chars_of(block_type);
    let mut out: Vec<BlockId> = Vec::new();
    let mut i: usize = 0;
    while i < doc.block_by_id.len()
        invariant
            i <= doc@.blocks.len(),
            want@ == block_type@,
            out@ == ids_of_kind(doc@.blocks, block_type@, i as int),
        decreases doc@.blocks.len() - i,
    {
        let bn = &doc.block_by_id[i];
        assert(bn@ == doc@.blocks[i as int]);
        let name = chars_of(bn.block_type_name());
        if chars_eq(name.as_slice(), want.as_slice()) {
            out.push(bn.block().id);
        }
        i = i + 1;
    }
    out
}

/// The section with the given canonical path (the first one, when several
/// carry it); `None` if no section has it.
pub fn find_by_path(doc: &DocumentBlock, path: &str) -> (r: Option<BlockId>)
    ensures
        r == first_with_path(doc@.blocks, path@),
{
    let want = chars_of(path);
    let ghost blocks = doc@.blocks;
    let mut i: usize = 0;
    while i < doc.block_by_id.len()
        invariant
            i <= blocks.len(),
            blocks == doc@.blocks,
            want@ == path@,
            forall|j: int| 0 <= j < i ==> !#[trigger] has_path(blocks[j], path@),
        decreases blocks.len() - i,
    {
        let bn = &doc.block_by_id[i];
        assert(bn@ == blocks[i as int]);
        match bn {
            BlockNode::Section(s) => {
                let p = chars_of(s.path.as_str());
                if chars_eq(p.as_slice(), want.as_slice()) {
                    assert(has_path(blocks[i as int], path@));
                    let ghost w = choose|w: int| 0 <= w < blocks.len() && has_path(blocks[w], path@) && forall|j: int|
                        0 <= j < w ==> !#[trigger] has_path(blocks[j], path@);
                    proof {
                        assert(0 <= i < blocks.len() && has_path(blocks[i as int], path@) && forall|j: int|
                            0 <= j < i ==> !#[trigger] has_path(blocks[j], path@));
                        if w < i {
                            assert(!has_path(blocks[w], path@));
                        } else if w > i {
                            assert(!has_path(blocks[i as int], path@));
                        }
                    }
                    return Some(s.block.id);
                }
            },
            _ => {},
        }
        i = i + 1;
    }
    None
}

} // verus!
