use vstd::prelude::*;
use vstd::string::StringSliceAdditionalSpecFns;

use crate::domain::block::{Block, BlockModel};
use crate::domain::block_node::{BlockNode, NodeModel};
use crate::error::{diag_views, DiagModel, Diagnostic};
use crate::primitives::{BlockId, ByteRange, LineRange};
use crate::text::{chars_of, join, join_with, lines_of, split_lines, string_of, views};

verus! {

/// Root block: the entire parsed document.
#[derive(Debug)]
pub struct DocumentBlock {
    pub block: Block,
    /// Source text (after line-ending normalization).
    pub source_text: String,
    /// Text as it was given, before normalization.
    pub normalized_text: String,
    /// Byte offsets of the start of each line (0-based).
    pub line_starts: Vec<usize>,
    /// Every block but the root, in id order.
    pub block_by_id: Vec<BlockNode>,
    /// Diagnostics collected during parsing and operations.
    pub diagnostics: Vec<Diagnostic>,
    /// Optional metadata (e.g., YAML front matter key-value pairs).
    pub metadata: Vec<(String, String)>,
}

/// The mathematical content of a [`DocumentBlock`].
pub struct DocModel {
    pub block: BlockModel,
    pub source_text: Seq<char>,
    pub normalized_text: Seq<char>,
    pub line_starts: Seq<usize>,
    pub blocks: Seq<NodeModel>,
    pub diagnostics: Seq<DiagModel>,
    pub metadata: Seq<(Seq<char>, Seq<char>)>,
}

/// The models of a sequence of block nodes.
pub open spec fn node_views(v: Seq<BlockNode>) -> Seq<NodeModel> {
    Seq::new(v.len(), |i: int| v[i]@)
}

impl View for DocumentBlock {
    type V = DocModel;

    open spec fn view(&self) -> DocModel {
        DocModel {
            block: self.block@,
            source_text: self.source_text@,
            normalized_text: self.normalized_text@,
            line_starts: self.line_starts@,
            blocks: node_views(self.block_by_id@),
            diagnostics: diag_views(self.diagnostics@),
            metadata: Seq::new(self.metadata@.len(), |i: int| (self.metadata@[i].0@, self.metadata@[i].1@)),
        }
    }
}

/// Whether some node carries the given id.
pub open spec fn has_id(nodes: Seq<NodeModel>, id: BlockId) -> bool {
    exists|i: int| 0 <= i < nodes.len() && #[trigger] nodes[i].block().id == id
}

/// Whether `i` is the first position of a node carrying `id`.
pub open spec fn is_first_with_id(nodes: Seq<NodeModel>, id: BlockId, i: int) -> bool {
    &&& 0 <= i < nodes.len()
    &&& nodes[i].block().id == id
    &&& forall|j: int| 0 <= j < i ==> #[trigger] nodes[j].block().id != id
}

/// The first node carrying `id`, if any.
pub open spec fn lookup(nodes: Seq<NodeModel>, id: BlockId) -> Option<NodeModel> {
    if has_id(nodes, id) {
        Some(nodes[choose|i: int| is_first_with_id(nodes, id, i)])
    } else {
        None
    }
}

/// The first node with an id is unique, so `lookup` finds it.
pub proof fn lemma_lookup_first(nodes: Seq<NodeModel>, id: BlockId, i: int)
    requires
        is_first_with_id(nodes, id, i),
    ensures
        lookup(nodes, id) == Some(nodes[i]),
{
    assert(has_id(nodes, id));
    let w = choose|w: int| is_first_with_id(nodes, id, w);
    assert(is_first_with_id(nodes, id, w));
    if w < i {
        assert(nodes[w].block().id != id);
    } else if w > i {
        assert(nodes[i].block().id != id);
    }
}

/// The block with the given id: the root block, or the first node with it.
pub open spec fn node_of(d: DocModel, id: BlockId) -> Option<BlockModel> {
    if id == d.block.id {
        Some(d.block)
    } else {
        match lookup(d.blocks, id) {
            Some(m) => Some(m.block()),
            None => None,
        }
    }
}

/// The tree is well founded: every child id is above its block's id, and
/// every parent id below it; the root has no parent.
pub open spec fn wf(d: DocModel) -> bool {
    &&& d.block.parent_id is None
    &&& forall|k: int| 0 <= k < d.block.children.len() ==> #[trigger] d.block.children[k].0 > d.block.id.0
    &&& forall|i: int, k: int| 0 <= i < d.blocks.len() && 0 <= k < d.blocks[i].block().children.len() ==>
        #[trigger] d.blocks[i].block().children[k].0 > d.blocks[i].block().id.0
    &&& forall|i: int| 0 <= i < d.blocks.len() ==> (#[trigger] d.blocks[i].block().parent_id matches Some(p) ==> p.0
        < d.blocks[i].block().id.0)
}

/// In a well-founded tree, every child of a block has a larger id, and its
/// parent a smaller one.
pub proof fn lemma_wf_node(d: DocModel, id: BlockId)
    requires
        wf(d),
    ensures
        node_of(d, id) matches Some(b) ==> {
            &&& b.id == id
            &&& forall|k: int| 0 <= k < b.children.len() ==> #[trigger] b.children[k].0 > id.0
            &&& (b.parent_id matches Some(p) ==> p.0 < id.0)
        },
{
    if id != d.block.id && has_id(d.blocks, id) {
        let i = choose|i: int| is_first_with_id(d.blocks, id, i);
        lemma_first_exists(d.blocks, id);
        let i = choose|i: int| is_first_with_id(d.blocks, id, i);
        lemma_lookup_first(d.blocks, id, i);
        assert forall|k: int| 0 <= k < d.blocks[i].block().children.len() implies #[trigger] d.blocks[i].block().children[k].0 > id.0 by {
        }
    }
}

/// The children of a block (none for an unknown id).
pub open spec fn children_of(d: DocModel, id: BlockId) -> Seq<BlockId> {
    match node_of(d, id) {
        Some(b) => b.children,
        None => Seq::empty(),
    }
}

/// Whether `rank` puts every child below its block, the root's and those of
/// every block.
pub open spec fn ranks_children(d: DocModel, rank: spec_fn(BlockId) -> nat) -> bool {
    &&& forall|k: int| 0 <= k < d.block.children.len() ==> #[trigger] rank(d.block.children[k]) < rank(d.block.id)
    &&& forall|i: int, k: int| 0 <= i < d.blocks.len() && 0 <= k < d.blocks[i].block().children.len() ==>
        #[trigger] rank(d.blocks[i].block().children[k]) < rank(d.blocks[i].block().id)
}

/// The children relation has no cycle: some ranking puts every child below
/// its block.
pub open spec fn acyclic(d: DocModel) -> bool {
    exists|rank: spec_fn(BlockId) -> nat| ranks_children(d, rank)
}

/// A ranking that puts every child below its block, when there is one.
pub open spec fn child_rank(d: DocModel) -> spec_fn(BlockId) -> nat {
    choose|rank: spec_fn(BlockId) -> nat| ranks_children(d, rank)
}

/// Whether `rank` puts every parent below its block.
pub open spec fn ranks_parents(d: DocModel, rank: spec_fn(BlockId) -> nat) -> bool {
    forall|id: BlockId| #[trigger] parent_of(d, id) matches Some(p) ==> rank(p) < rank(id)
}

/// The parent of a block (none for an unknown id or the root).
pub open spec fn parent_of(d: DocModel, id: BlockId) -> Option<BlockId> {
    match node_of(d, id) {
        Some(b) => b.parent_id,
        None => None,
    }
}

/// The parent chains have no cycle: some ranking puts every parent below
/// its block.
pub open spec fn parents_acyclic(d: DocModel) -> bool {
    exists|rank: spec_fn(BlockId) -> nat| ranks_parents(d, rank)
}

/// A ranking that puts every parent below its block, when there is one.
pub open spec fn parent_rank(d: DocModel) -> spec_fn(BlockId) -> nat {
    choose|rank: spec_fn(BlockId) -> nat| ranks_parents(d, rank)
}

/// In an acyclic tree, every child of a block ranks below it, whether the
/// block is found by [`node_of`] or by [`lookup`].
pub proof fn lemma_acyclic_kids(d: DocModel, id: BlockId)
    requires
        acyclic(d),
    ensures
        ranks_children(d, child_rank(d)),
        forall|k: int| 0 <= k < children_of(d, id).len() ==> #[trigger] child_rank(d)(children_of(d, id)[k]) < child_rank(d)(id),
        lookup(d.blocks, id) matches Some(m) ==> m.block().id == id && forall|k: int| 0 <= k < m.block().children.len()
            ==> #[trigger] child_rank(d)(m.block().children[k]) < child_rank(d)(id),
{
    let r = child_rank(d);
    assert(ranks_children(d, r));
    if has_id(d.blocks, id) {
        lemma_first_exists(d.blocks, id);
        let i = choose|i: int| is_first_with_id(d.blocks, id, i);
        lemma_lookup_first(d.blocks, id, i);
        assert forall|k: int| 0 <= k < d.blocks[i].block().children.len() implies #[trigger] r(d.blocks[i].block().children[k]) < r(id) by {
        }
    }
}

/// A well-founded tree has no cycle, neither down its children nor up its
/// parents: ranking blocks by id, downwards or upwards, shows it.
pub proof fn lemma_wf_acyclic(d: DocModel)
    requires
        wf(d),
    ensures
        acyclic(d),
        parents_acyclic(d),
{
    let rank = |id: BlockId| (u32::MAX - id.0) as nat;
    assert(ranks_children(d, rank));
    let up = |id: BlockId| id.0 as nat;
    assert forall|id: BlockId| #[trigger] parent_of(d, id) is Some implies up(parent_of(d, id)->0) < up(id) by {
        lemma_wf_node(d, id);
    }
    assert(ranks_parents(d, up));
}

/// When some node carries an id, a first one does.
pub proof fn lemma_first_exists(nodes: Seq<NodeModel>, id: BlockId)
    requires
        has_id(nodes, id),
    ensures
        exists|i: int| is_first_with_id(nodes, id, i),
{
    let w = choose|w: int| 0 <= w < nodes.len() && #[trigger] nodes[w].block().id == id;
    lemma_first_below(nodes, id, w);
}

proof fn lemma_first_below(nodes: Seq<NodeModel>, id: BlockId, w: int)
    requires
        0 <= w < nodes.len(),
        nodes[w].block().id == id,
    ensures
        exists|i: int| is_first_with_id(nodes, id, i),
    decreases w,
{
    if forall|j: int| 0 <= j < w ==> #[trigger] nodes[j].block().id != id {
        assert(is_first_with_id(nodes, id, w));
    } else {
        let j = choose|j: int| 0 <= j < w && #[trigger] nodes[j].block().id == id;
        lemma_first_below(nodes, id, j);
    }
}

/// The lines of a text between two 1-based inclusive bounds, joined with
/// `\n`; empty when the range is empty or starts past the last line.
pub open spec fn text_for_range(source: Seq<char>, range: LineRange) -> Seq<char> {
    let lines = lines_of(source);
    if source.len() == 0 || range.start > range.end || range.start == 0 || range.start > lines.len() {
        Seq::empty()
    } else {
        let end = if range.end <= lines.len() { range.end as int } else { lines.len() as int };
        join_with(lines.subrange(range.start - 1, end), "\n"@)
    }
}

/// The number of lines of a text (zero for the empty text).
pub open spec fn line_count_of(source: Seq<char>) -> nat {
    if source.len() == 0 {
        0
    } else {
        lines_of(source).len()
    }
}

/// The byte offsets at which the lines of a text start: 0, then one past
/// each newline byte.
pub open spec fn line_starts_of(bytes: Seq<u8>) -> Seq<usize>
    decreases bytes.len(),
{
    if bytes.len() == 0 {
        seq![0usize]
    } else if bytes.last() == 10u8 {
        line_starts_of(bytes.drop_last()).push(bytes.len() as usize)
    } else {
        line_starts_of(bytes.drop_last())
    }
}

/// Compute byte offsets for the start of each line.
pub fn compute_line_starts(text: &str) -> (r: Vec<usize>)
    ensures
        r@ == line_starts_of(text.spec_bytes()),
{
    let bytes = text.as_bytes();
    let mut starts: Vec<usize> = Vec::new();
    starts.push(0);
    let mut i: usize = 0;
    while i < bytes.len()
        invariant
            i <= bytes.len(),
            bytes@ == text.spec_bytes(),
            starts@ == line_starts_of(bytes@.take(i as int)),
        decreases bytes.len() - i,
    {
        assert(bytes@.take(i + 1).drop_last() == bytes@.take(i as int));
        if bytes[i] == 10u8 {
            starts.push(i + 1);
        }
        i = i + 1;
    }
    assert(bytes@.take(bytes.len() as int) == bytes@);
    starts
}

/// The root block of a document made for a text: line 1 through its last
/// line, spanning all of its bytes.
pub open spec fn new_root_block(source: Seq<char>, byte_len: usize) -> BlockModel {
    BlockModel {
        id: BlockId(0),
        line_range: LineRange { start: 1, end: line_count_of(source) as usize },
        parent_id: None,
        children: Seq::empty(),
        byte_range: if source.len() == 0 { None } else { Some(ByteRange { start: 0, end: byte_len }) },
    }
}

impl DocumentBlock {
    /// Create a new DocumentBlock for the given source text, with no blocks.
    pub fn new(source_text: String) -> (r: Self)
        ensures
            r@.block == new_root_block(source_text@, vstd::utf8::encode_utf8(source_text@).len() as usize),
            r@.source_text == source_text@,
            r@.normalized_text == source_text@,
            r@.line_starts == line_starts_of(vstd::utf8::encode_utf8(source_text@)),
            r@.blocks.len() == 0,
            r@.diagnostics.len() == 0,
            r@.metadata.len() == 0,
    {
        let line_starts = compute_line_starts(source_text.as_str());
        let normalized_text = source_text.clone();
        let line_count = line_count_str(source_text.as_str());
        let empty = source_text.as_str().is_empty();
        let root_block = Block {
            id: BlockId(0),
            line_range: LineRange { start: 1, end: line_count },
            parent_id: None,
            children_ids: Vec::new(),
            byte_range: if empty {
                None
            } else {
                Some(ByteRange { start: 0, end: source_text.as_str().len() })
            },
        };
        let doc = DocumentBlock {
            block: root_block,
            source_text,
            normalized_text,
            line_starts,
            block_by_id: Vec::new(),
            diagnostics: Vec::new(),
            metadata: Vec::new(),
        };
        assert(doc@.blocks =~= Seq::<NodeModel>::empty());
        assert(doc@.diagnostics =~= Seq::<DiagModel>::empty());
        assert(doc@.block.children =~= Seq::<BlockId>::empty());
        doc
    }

    /// Returns the document's own block ID.
    pub fn root_id(&self) -> (r: BlockId)
        ensures
            r == self.block.id,
    {
        self.block.id
    }

    /// Total number of blocks in the tree (including root).
    pub fn total_blocks(&self) -> (r: usize)
        requires
            self.block_by_id@.len() < usize::MAX,
        ensures
            r == self.block_by_id@.len() + 1,
    {
        self.block_by_id.len() + 1
    }

    /// The position of the first block with the given id.
    pub fn position_of(&self, id: BlockId) -> (r: Option<usize>)
        ensures
            match r {
                Some(i) => is_first_with_id(self@.blocks, id, i as int) && lookup(self@.blocks, id)
                    == Some(self@.blocks[i as int]),
                None => !has_id(self@.blocks, id) && lookup(self@.blocks, id) is None,
            },
    {
        let mut i: usize = 0;
        while i < self.block_by_id.len()
            invariant
                i <= self.block_by_id@.len(),
                forall|j: int| 0 <= j < i ==> #[trigger] self@.blocks[j].block().id != id,
            decreases self.block_by_id@.len() - i,
        {
            if self.block_by_id[i].block().id == id {
                proof {
                    lemma_lookup_first(self@.blocks, id, i as int);
                }
                return Some(i);
            }
            i = i + 1;
        }
        None
    }

    /// Lookup of a block by ID (the first one that carries it).
    pub fn get_block(&self, id: BlockId) -> (r: Option<&BlockNode>)
        ensures
            match r {
                Some(bn) => lookup(self@.blocks, id) == Some(bn@),
                None => lookup(self@.blocks, id) is None,
            },
    {
        match self.position_of(id) {
            Some(i) => Some(&self.block_by_id[i]),
            None => None,
        }
    }

    /// Extract source text for a given line range.
    pub fn source_text_for_range(&self, range: LineRange) -> (r: String)
        ensures
            r@ == text_for_range(self.source_text@, range),
    {
        let text = chars_of(self.source_text.as_str());
        let v = text_for_range_chars(text.as_slice(), range);
        string_of(v.as_slice())
    }

    /// Get the total number of lines in the document.
    pub fn line_count(&self) -> (r: usize)
        ensures
            r == line_count_of(self.source_text@),
    {
        line_count_str(self.source_text.as_str())
    }
}

/// The number of lines of a string slice.
pub fn line_count_str(s: &str) -> (r: usize)
    ensures
        r == line_count_of(s@),
{
    let lines = crate::text::lines_of_str(s);
    if s.is_empty() {
        0
    } else {
        lines.len()
    }
}

/// `text_for_range` on characters.
pub fn text_for_range_chars(source: &[char], range: LineRange) -> (r: Vec<char>)
    ensures
        r@ == text_for_range(source@, range),
{
    if source.len() == 0 || range.start > range.end {
        return Vec::new();
    }
    let lines = split_lines(source);
    if range.start == 0 || range.start > lines.len() {
        return Vec::new();
    }
    let end = if range.end <= lines.len() { range.end } else { lines.len() };
    let mut part: Vec<Vec<char>> = Vec::new();
    let mut i: usize = range.start - 1;
    let ghost ls = lines_of(source@);
    assert(ls.len() == lines@.len());
    while i < end
        invariant
            1 <= range.start,
            range.start - 1 <= i <= end <= lines@.len(),
            ls == views(lines@),
            ls.len() == lines@.len(),
            views(part@) == ls.subrange(range.start - 1, i as int),
        decreases end - i,
    {
        let ghost old_part = views(part@);
        part.push(clone_chars(&lines[i]));
        assert(views(part@) =~= old_part.push(ls[i as int]));
        assert(ls.subrange(range.start - 1, i + 1) =~= ls.subrange(range.start - 1, i as int).push(ls[i as int]));
        i = i + 1;
    }
    let sep = chars_of("\n");
    join(&part, sep.as_slice())
}

/// A copy of a character vector.
pub fn clone_chars(v: &Vec<char>) -> (r: Vec<char>)
    ensures
        r@ == v@,
{
    let mut out: Vec<char> = Vec::new();
    crate::text::append(&mut out, v.as_slice());
    out
}


impl DocumentBlock {
    /// A copy of this document with the same content.
    pub fn duplicate(&self) -> (r: DocumentBlock)
        ensures
            r@ == self@,
        decreases self,
    {
        let mut blocks: Vec<BlockNode> = Vec::new();
        let mut i: usize = 0;
        while i < self.block_by_id.len()
            invariant
                i <= self.block_by_id@.len(),
                node_views(blocks@) == node_views(self.block_by_id@.take(i as int)),
            decreases self.block_by_id@.len() - i,
        {
            let ghost before = node_views(blocks@);
            proof {
                assert(decreases_to!(self => self.block_by_id));
                assert(decreases_to!(self.block_by_id => self.block_by_id@));
                assert(decreases_to!(self.block_by_id@ => self.block_by_id@[i as int]));
            }
            blocks.push(self.block_by_id[i].duplicate());
            assert(node_views(blocks@) =~= before.push(self.block_by_id@[i as int]@));
            assert(node_views(self.block_by_id@.take(i + 1)) =~= node_views(self.block_by_id@.take(i as int)).push(
                self.block_by_id@[i as int]@,
            ));
            i = i + 1;
        }
        assert(self.block_by_id@.take(self.block_by_id@.len() as int) =~= self.block_by_id@);
        let mut diags: Vec<Diagnostic> = Vec::new();
        let mut k: usize = 0;
        while k < self.diagnostics.len()
            invariant
                k <= self.diagnostics@.len(),
                diag_views(diags@) == diag_views(self.diagnostics@.take(k as int)),
            decreases self.diagnostics@.len() - k,
        {
            let ghost before = diag_views(diags@);
            diags.push(self.diagnostics[k].duplicate());
            assert(diag_views(diags@) =~= before.push(self.diagnostics@[k as int]@));
            assert(diag_views(self.diagnostics@.take(k + 1)) =~= diag_views(self.diagnostics@.take(k as int)).push(
                self.diagnostics@[k as int]@,
            ));
            k = k + 1;
        }
        assert(self.diagnostics@.take(self.diagnostics@.len() as int) =~= self.diagnostics@);
        let mut meta: Vec<(String, String)> = Vec::new();
        let mut j: usize = 0;
        while j < self.metadata.len()
            invariant
                j <= self.metadata@.len(),
                meta@.len() == j,
                forall|q: int| 0 <= q < j ==> #[trigger] meta@[q].0@ == self.metadata@[q].0@ && meta@[q].1@ == self.metadata@[q].1@,
            decreases self.metadata@.len() - j,
        {
            let (a, b) = &self.metadata[j];
            meta.push((a.clone(), b.clone()));
            j = j + 1;
        }
        let r = DocumentBlock {
            block: self.block.duplicate(),
            source_text: self.source_text.clone(),
            normalized_text: self.normalized_text.clone(),
            line_starts: copy_usizes(&self.line_starts),
            block_by_id: blocks,
            diagnostics: diags,
            metadata: meta,
        };
        assert(r@.metadata =~= self@.metadata);
        r
    }
}

/// A copy of a list of offsets.
pub fn copy_usizes(v: &Vec<usize>) -> (r: Vec<usize>)
    ensures
        r@ == v@,
{
    let mut out: Vec<usize> = Vec::new();
    let mut i: usize = 0;
    while i < v.len()
        invariant
            i <= v.len(),
            out@ == v@.take(i as int),
        decreases v.len() - i,
    {
        out.push(v[i]);
        i = i + 1;
    }
    assert(out@ =~= v@);
    out
}

} // verus!
