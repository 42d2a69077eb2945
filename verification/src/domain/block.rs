use vstd::prelude::*;

use crate::primitives::{BlockId, ByteRange, LineRange};

verus! {

/// Core data carried by every block node in the document tree.
#[derive(Debug, Clone)]
pub struct Block {
    /// Unique identifier assigned sequentially during parsing.
    pub id: BlockId,
    /// 1-based inclusive line range in source text.
    pub line_range: LineRange,
    /// ID of the parent block, None for root.
    pub parent_id: Option<BlockId>,
    /// Ordered list of child block IDs.
    pub children_ids: Vec<BlockId>,
    /// Half-open byte range in source text.
    pub byte_range: Option<ByteRange>,
}

/// The mathematical content of a [`Block`].
pub struct BlockModel {
    pub id: BlockId,
    pub line_range: LineRange,
    pub parent_id: Option<BlockId>,
    pub children: Seq<BlockId>,
    pub byte_range: Option<ByteRange>,
}

impl View for Block {
    type V = BlockModel;

    open spec fn view(&self) -> BlockModel {
        BlockModel {
            id: self.id,
            line_range: self.line_range,
            parent_id: self.parent_id,
            children: self.children_ids@,
            byte_range: self.byte_range,
        }
    }
}

impl Block {
    /// Whether the block has at least one child.
    pub fn has_children(&self) -> (r: bool)
        ensures
            r == (self.children_ids@.len() > 0),
    {
        self.children_ids.len() > 0
    }

    /// A copy of the block with the same content.
    pub fn duplicate(&self) -> (r: Block)
        ensures
            r@ == self@,
    {
        Block {
            id: self.id,
            line_range: self.line_range,
            parent_id: self.parent_id,
            children_ids: copy_ids(&self.children_ids),
            byte_range: self.byte_range,
        }
    }
}

/// A copy of a list of block ids.
pub fn copy_ids(v: &Vec<BlockId>) -> (r: Vec<BlockId>)
    ensures
        r@ == v@,
{
    let mut out: Vec<BlockId> = Vec::new();
    let mut i: usize = 0;
    while i < v.len()
        invariant
            i <= v.len(),
            out@ == v@.take(i as int),
        decreases v.len() - i,
    {
        out.push(v[i]);
        i = i + 1;
    }
    assert(out@ =~= v@);
    out
}

} // verus!
