use vstd::prelude::*;

use crate::builder::tree_builder::{build_tree, buildable, built_from};
use crate::domain::block_node::{BlockNode, NodeModel};
use crate::domain::document::{acyclic, child_rank, lemma_acyclic_kids, lookup, DocModel, DocumentBlock};
use crate::error::MdtoolError;
use crate::primitives::{BlockId, LineRange};
use crate::text::{chars_eq, chars_of, join, join_with, lines_of, split_lines, string_of, views};

verus! {

broadcast use vstd::seq_lib::group_seq_properties;

/// Summary of differences between two texts.
#[derive(Debug, Clone)]
pub struct DiffSummary {
    /// Whether any changes were detected.
    pub changed: bool,
    /// 1-based inclusive line ranges that changed.
    pub changed_line_ranges: Vec<LineRange>,
    /// Total number of lines added.
    pub added_lines: usize,
    /// Total number of lines removed.
    pub removed_lines: usize,
}

/// The mathematical content of a [`DiffSummary`].
pub struct DiffModel {
    pub changed: bool,
    pub changed_line_ranges: Seq<LineRange>,
    pub added_lines: int,
    pub removed_lines: int,
}

impl View for DiffSummary {
    type V = DiffModel;

    open spec fn view(&self) -> DiffModel {
        DiffModel {
            changed: self.changed,
            changed_line_ranges: self.changed_line_ranges@,
            added_lines: self.added_lines as int,
            removed_lines: self.removed_lines as int,
        }
    }
}

/// The summary that reports no change.
pub open spec fn no_change() -> DiffModel {
    DiffModel { changed: false, changed_line_ranges: Seq::empty(), added_lines: 0, removed_lines: 0 }
}

/// A summary that reports no change.
pub fn unchanged_summary() -> (r: DiffSummary)
    ensures
        r@ == no_change(),
{
    let r = DiffSummary { changed: false, changed_line_ranges: Vec::new(), added_lines: 0, removed_lines: 0 };
    assert(r@.changed_line_ranges =~= Seq::<LineRange>::empty());
    r
}

// ---------------------------------------------------------------------------
// patch_text
// ---------------------------------------------------------------------------

/// The 0-based line index at which a patch starts, clamped to the text.
pub open spec fn patch_start(range: LineRange, n: int) -> int {
    let s = if range.start >= 1 { range.start - 1 } else { 0 };
    if s <= n { s } else { n }
}

/// The 0-based line index at which the kept tail of a patched text starts.
pub open spec fn patch_end(range: LineRange, n: int) -> int {
    let s = if range.start >= 1 { range.start - 1 } else { 0 };
    let e = if range.start > range.end { s } else { range.end as int };
    if e <= n { e } else { n }
}

/// The lines of a patched text: lines before the range, the new lines, then
/// the lines after the range.
pub open spec fn patched_lines(text: Seq<char>, range: LineRange, new_text: Seq<char>) -> Seq<Seq<char>> {
    let lines = lines_of(text);
    let n = lines.len() as int;
    lines.take(patch_start(range, n)) + lines_of(new_text) + lines.skip(patch_end(range, n))
}

/// Lines `[start, end]` of `text` replaced by the lines of `new_text`; an
/// empty range inserts before `start`. A final newline of `text` is kept.
pub open spec fn patch_spec(text: Seq<char>, range: LineRange, new_text: Seq<char>) -> Seq<char> {
    let joined = join_with(patched_lines(text, range, new_text), "\n"@);
    if text.len() > 0 && text.last() == '\n' && joined.len() > 0 {
        joined.push('\n')
    } else {
        joined
    }
}

/// Copies the lines `from..to` of `src` onto the end of `dst`.
fn push_lines(dst: &mut Vec<Vec<char>>, src: &Vec<Vec<char>>, from: usize, to: usize)
    requires
        from <= to <= src@.len(),
    ensures
        views(final(dst)@) == views(old(dst)@) + views(src@).subrange(from as int, to as int),
{
    let mut i = from;
    while i < to
        invariant
            from <= i <= to <= src@.len(),
            views(dst@) == views(old(dst)@) + views(src@).subrange(from as int, i as int),
        decreases to - i,
    {
        let ghost before = views(dst@);
        dst.push(crate::domain::document::clone_chars(&src[i]));
        assert(views(dst@) =~= before.push(src@[i as int]@));
        assert(views(src@).subrange(from as int, i + 1) =~= views(src@).subrange(from as int, i as int).push(src@[i as int]@));
        i = i + 1;
    }
}

/// Replace lines `[start, end]` (1-based inclusive) in `text` with `new_text`.
///
/// Lines outside the specified range are preserved. If `line_range` is empty
/// (`start > end`), the new text is inserted before `start`.
pub fn patch_text(text: &str, line_range: LineRange, new_text: &str) -> (r: String)
    ensures
        r@ == patch_spec(text@, line_range, new_text@),
{
    let text_chars = chars_of(text);
    let lines = split_lines(text_chars.as_slice());
    let new_chars = chars_of(new_text);
    let new_lines = split_lines(new_chars.as_slice());
    let n = lines.len();
    let s0 = if line_range.start >= 1 { line_range.start - 1 } else { 0 };
    let e0 = if line_range.start > line_range.end { s0 } else { line_range.end };
    let start_idx = if s0 <= n { s0 } else { n };
    let end_idx = if e0 <= n { e0 } else { n };
    let mut result: Vec<Vec<char>> = Vec::new();
    push_lines(&mut result, &lines, 0, start_idx);
    push_lines(&mut result, &new_lines, 0, new_lines.len());
    push_lines(&mut result, &lines, end_idx, n);
    proof {
        let ls = lines_of(text@);
        assert(views(lines@) == ls);
        assert(views(lines@).subrange(0, start_idx as int) =~= ls.take(start_idx as int));
        assert(views(new_lines@).subrange(0, new_lines@.len() as int) =~= lines_of(new_text@));
        assert(views(lines@).subrange(end_idx as int, n as int) =~= ls.skip(end_idx as int));
        assert(views(result@) =~= patched_lines(text@, line_range, new_text@));
    }
    let sep = chars_of("\n");
    let mut joined = join(&result, sep.as_slice());
    let trailing = text_chars.len() > 0 && text_chars[text_chars.len() - 1] == '\n';
    if trailing && joined.len() > 0 {
        joined.push('\n');
    }
    string_of(joined.as_slice())
}

// ---------------------------------------------------------------------------
// compute_diff
// ---------------------------------------------------------------------------

/// The running state of a line-by-line comparison after `i` positions:
/// closed ranges, added and removed counts, and the start of an open range.
pub struct DiffAcc {
    pub ranges: Seq<LineRange>,
    pub added: int,
    pub removed: int,
    pub open: Option<int>,
}

/// Whether line `i` differs between the two line lists (present in one
/// only, or present in both with different text).
pub open spec fn line_differs(a: Seq<Seq<char>>, b: Seq<Seq<char>>, i: int) -> bool {
    if i < a.len() && i < b.len() {
        a[i] != b[i]
    } else {
        i < a.len() || i < b.len()
    }
}

/// The comparison state after the first `n` positions.
pub open spec fn diff_acc(a: Seq<Seq<char>>, b: Seq<Seq<char>>, n: nat) -> DiffAcc
    decreases n,
{
    if n == 0 {
        DiffAcc { ranges: Seq::empty(), added: 0, removed: 0, open: None }
    } else {
        let prev = diff_acc(a, b, (n - 1) as nat);
        let i = n - 1;
        if line_differs(a, b, i) {
            DiffAcc {
                ranges: prev.ranges,
                added: prev.added + (if i < b.len() { 1int } else { 0 }),
                removed: prev.removed + (if i < a.len() { 1int } else { 0 }),
                open: if prev.open is None { Some(i) } else { prev.open },
            }
        } else if prev.open is Some {
            DiffAcc {
                ranges: prev.ranges.push(LineRange { start: (prev.open->0 + 1) as usize, end: i as usize }),
                added: prev.added,
                removed: prev.removed,
                open: None,
            }
        } else {
            prev
        }
    }
}

/// The diff summary of two line lists.
pub open spec fn diff_lines(a: Seq<Seq<char>>, b: Seq<Seq<char>>) -> DiffModel {
    let n = if a.len() >= b.len() { a.len() } else { b.len() };
    let acc = diff_acc(a, b, n);
    let ranges = match acc.open {
        Some(s) => acc.ranges.push(LineRange { start: (s + 1) as usize, end: n as usize }),
        None => acc.ranges,
    };
    DiffModel { changed: ranges.len() > 0, changed_line_ranges: ranges, added_lines: acc.added, removed_lines: acc.removed }
}

/// The diff summary of two texts, compared line by line.
pub open spec fn diff_spec(old_text: Seq<char>, new_text: Seq<char>) -> DiffModel {
    diff_lines(lines_of(old_text), lines_of(new_text))
}

proof fn lemma_diff_acc_bounds(a: Seq<Seq<char>>, b: Seq<Seq<char>>, n: nat)
    ensures
        0 <= diff_acc(a, b, n).added <= n,
        0 <= diff_acc(a, b, n).removed <= n,
        diff_acc(a, b, n).open matches Some(s) ==> 0 <= s < n,
    decreases n,
{
    if n > 0 {
        lemma_diff_acc_bounds(a, b, (n - 1) as nat);
    }
}

/// Compare two texts line by line and compute a diff summary.
pub fn compute_diff(old_text: &str, new_text: &str) -> (r: DiffSummary)
    ensures
        r@ == diff_spec(old_text@, new_text@),
{
    let oc = chars_of(old_text);
    let nc = chars_of(new_text);
    let old_lines = split_lines(oc.as_slice());
    let new_lines = split_lines(nc.as_slice());
    let ghost a = lines_of(old_text@);
    let ghost b = lines_of(new_text@);
    let max_len = if old_lines.len() >= new_lines.len() { old_lines.len() } else { new_lines.len() };
    let mut changed_line_ranges: Vec<LineRange> = Vec::new();
    let mut added_lines: usize = 0;
    let mut removed_lines: usize = 0;
    let mut current_range_start: Option<usize> = None;
    let mut i: usize = 0;
    while i < max_len
        invariant
            i <= max_len,
            max_len == (if a.len() >= b.len() { a.len() } else { b.len() }),
            views(old_lines@) == a,
            views(new_lines@) == b,
            a.len() == old_lines@.len(),
            b.len() == new_lines@.len(),
            changed_line_ranges@ == diff_acc(a, b, i as nat).ranges,
            added_lines == diff_acc(a, b, i as nat).added,
            removed_lines == diff_acc(a, b, i as nat).removed,
            match current_range_start {
                Some(s) => diff_acc(a, b, i as nat).open == Some(s as int),
                None => diff_acc(a, b, i as nat).open is None,
            },
        decreases max_len - i,
    {
        proof {
            lemma_diff_acc_bounds(a, b, i as nat);
        }
        let has_old = i < old_lines.len();
        let has_new = i < new_lines.len();
        let differ = if has_old && has_new {
            !chars_eq(old_lines[i].as_slice(), new_lines[i].as_slice())
        } else {
            has_old || has_new
        };
        proof {
            if has_old && has_new {
                assert(a[i as int] == old_lines@[i as int]@);
                assert(b[i as int] == new_lines@[i as int]@);
            }
            assert(differ == line_differs(a, b, i as int));
        }
        if differ {
            if has_new {
                added_lines = added_lines + 1;
            }
            if has_old {
                removed_lines = removed_lines + 1;
            }
            if current_range_start.is_none() {
                current_range_start = Some(i);
            }
        } else if current_range_start.is_some() {
            let start = current_range_start.unwrap();
            changed_line_ranges.push(LineRange { start: start + 1, end: i });
            current_range_start = None;
        }
        i = i + 1;
    }
    proof {
        lemma_diff_acc_bounds(a, b, i as nat);
    }
    if let Some(start) = current_range_start {
        changed_line_ranges.push(LineRange { start: start + 1, end: max_len });
    }
    let changed = changed_line_ranges.len() > 0;
    DiffSummary { changed, changed_line_ranges, added_lines, removed_lines }
}

/// Comparing a text with itself finds no change.
pub proof fn law_diff_of_identical_texts(text: Seq<char>)
    ensures
        diff_spec(text, text) == no_change(),
{
    let a = lines_of(text);
    lemma_diff_identical(a, a.len());
    assert(diff_spec(text, text).changed_line_ranges =~= no_change().changed_line_ranges);
}

proof fn lemma_diff_identical(a: Seq<Seq<char>>, n: nat)
    ensures
        diff_acc(a, a, n) == (DiffAcc { ranges: Seq::empty(), added: 0, removed: 0, open: None }),
    decreases n,
{
    if n > 0 {
        lemma_diff_identical(a, (n - 1) as nat);
    }
}

/// A text is reported changed exactly when some line position differs.
pub proof fn law_diff_changed_iff_some_line_differs(old_text: Seq<char>, new_text: Seq<char>)
    ensures
        diff_spec(old_text, new_text).changed <==> exists|i: int|
            0 <= i && #[trigger] line_differs(lines_of(old_text), lines_of(new_text), i),
{
    let a = lines_of(old_text);
    let b = lines_of(new_text);
    let n = if a.len() >= b.len() { a.len() } else { b.len() };
    lemma_diff_acc_some(a, b, n);
    if exists|i: int| 0 <= i && #[trigger] line_differs(a, b, i) {
        let i = choose|i: int| 0 <= i && #[trigger] line_differs(a, b, i);
        assert(i < n);
    }
}

proof fn lemma_diff_acc_some(a: Seq<Seq<char>>, b: Seq<Seq<char>>, n: nat)
    ensures
        (diff_acc(a, b, n).ranges.len() > 0 || diff_acc(a, b, n).open is Some) <==> exists|i: int|
            0 <= i < n && #[trigger] line_differs(a, b, i),
    decreases n,
{
    if n > 0 {
        lemma_diff_acc_some(a, b, (n - 1) as nat);
        if exists|i: int| 0 <= i < n - 1 && #[trigger] line_differs(a, b, i) {
            let i = choose|i: int| 0 <= i < n - 1 && #[trigger] line_differs(a, b, i);
            assert(0 <= i < n);
        }
        if exists|i: int| 0 <= i < n && #[trigger] line_differs(a, b, i) {
            let i = choose|i: int| 0 <= i < n && #[trigger] line_differs(a, b, i);
            if i < n - 1 {
            }
        }
    }
}


// ---------------------------------------------------------------------------
// Patch and reparse; the extent of a block's subtree
// ---------------------------------------------------------------------------

/// Patch a document's source text, rebuild the tree on the patched text, and
/// compute the diff between the old and the patched text.
pub fn patch_and_reparse(doc: &DocumentBlock, line_range: LineRange, new_text: &str) -> (r: Result<
    (String, DocumentBlock, DiffSummary),
    MdtoolError,
>)
    ensures
        match r {
            Ok((s, nd, df)) => {
                &&& s@ == patch_spec(doc@.source_text, line_range, new_text@)
                &&& built_from(s@, nd@)
                &&& df@ == diff_spec(doc@.source_text, s@)
            },
            Err(e) => e is Parse && !buildable(patch_spec(doc@.source_text, line_range, new_text@)),
        },
{
    let patched_text = patch_text(doc.source_text.as_str(), line_range, new_text);
    let new_doc = build_tree(patched_text.as_str())?;
    let diff = compute_diff(doc.source_text.as_str(), patched_text.as_str());
    Ok((patched_text, new_doc, diff))
}

/// The larger of two line numbers.
pub open spec fn max_line(a: usize, b: usize) -> usize {
    if a >= b { a } else { b }
}

/// The largest last line over the subtree of block `id` (0 for a missing
/// block; the root is not among the blocks). A child that does not rank
/// below its block (see [`child_rank`]) would close a cycle and is not
/// descended into (in an acyclic tree there is none).
pub open spec fn max_end(d: DocModel, id: BlockId) -> usize
    decreases child_rank(d)(id), 1int, 0int,
{
    match lookup(d.blocks, id) {
        Some(m) => max_line(
            kids_max(d, id, m.block().children, m.block().children.len() as int),
            m.block().line_range.end,
        ),
        None => 0,
    }
}

/// The largest of `max_end` over the first `k` children `cs` of block `id`.
pub open spec fn kids_max(d: DocModel, id: BlockId, cs: Seq<BlockId>, k: int) -> usize
    decreases child_rank(d)(id), 0int, k,
{
    if k <= 0 {
        0
    } else {
        let c = cs[k - 1];
        let v = if child_rank(d)(c) < child_rank(d)(id) { max_end(d, c) } else { 0 };
        max_line(kids_max(d, id, cs, k - 1), v)
    }
}

/// The descendants of block `id` in pre-order, itself excluded (none for a
/// missing block, the root among them).
pub open spec fn descendants(d: DocModel, id: BlockId) -> Seq<BlockId>
    decreases child_rank(d)(id), 1int, 0int,
{
    match lookup(d.blocks, id) {
        Some(m) => desc_kids(d, id, m.block().children, m.block().children.len() as int),
        None => Seq::empty(),
    }
}

/// Each of the first `k` children `cs` of block `id` followed by its
/// descendants.
pub open spec fn desc_kids(d: DocModel, id: BlockId, cs: Seq<BlockId>, k: int) -> Seq<BlockId>
    decreases child_rank(d)(id), 0int, k,
{
    if k <= 0 {
        Seq::empty()
    } else {
        let c = cs[k - 1];
        desc_kids(d, id, cs, k - 1) + seq![c] + if child_rank(d)(c) < child_rank(d)(id) { descendants(d, c) } else { Seq::empty() }
    }
}

/// Whether no block lists the root among its children.
pub open spec fn root_unlisted(d: DocModel) -> bool {
    forall|i: int, k: int| 0 <= i < d.blocks.len() && 0 <= k < d.blocks[i].block().children.len() ==> #[trigger] d.blocks[i].block().children[k] != d.block.id
}

proof fn lemma_lookup_kids_not_root(d: DocModel, id: BlockId)
    requires
        root_unlisted(d),
    ensures
        lookup(d.blocks, id) matches Some(m) ==> forall|k: int| 0 <= k < m.block().children.len() ==> #[trigger] m.block().children[k] != d.block.id,
{
    if crate::domain::document::has_id(d.blocks, id) {
        crate::domain::document::lemma_first_exists(d.blocks, id);
        let i = choose|i: int| crate::domain::document::is_first_with_id(d.blocks, id, i);
        crate::domain::document::lemma_lookup_first(d.blocks, id, i);
        assert forall|k: int| 0 <= k < d.blocks[i].block().children.len() implies #[trigger] d.blocks[i].block().children[k] != d.block.id by {
        }
    }
}

proof fn lemma_descendants_walk(d: DocModel, id: BlockId)
    requires
        root_unlisted(d),
        id != d.block.id,
    ensures
        descendants(d, id) == crate::ops::traverse::walk_spec(d, id).drop_first(),
    decreases child_rank(d)(id), 1int, 0int,
{
    lemma_lookup_kids_not_root(d, id);
    let w = crate::ops::traverse::walk_spec(d, id);
    match lookup(d.blocks, id) {
        Some(m) => {
            let cs = m.block().children;
            assert(crate::ops::traverse::children_of(d, id) == cs);
            lemma_desc_walk_kids(d, id, cs, cs.len() as int);
            assert(w == seq![id] + crate::ops::traverse::walk_kids(d, id, cs, cs.len() as int));
            assert(w.drop_first() =~= crate::ops::traverse::walk_kids(d, id, cs, cs.len() as int));
        },
        None => {
            assert(crate::ops::traverse::children_of(d, id) =~= Seq::<BlockId>::empty());
            assert(w.drop_first() =~= Seq::<BlockId>::empty());
        },
    }
}

proof fn lemma_desc_walk_kids(d: DocModel, id: BlockId, cs: Seq<BlockId>, k: int)
    requires
        root_unlisted(d),
        k <= cs.len(),
        forall|q: int| 0 <= q < cs.len() ==> #[trigger] cs[q] != d.block.id,
    ensures
        desc_kids(d, id, cs, k) == crate::ops::traverse::walk_kids(d, id, cs, k),
    decreases child_rank(d)(id), 0int, k,
{
    if k > 0 {
        lemma_desc_walk_kids(d, id, cs, k - 1);
        let c = cs[k - 1];
        if child_rank(d)(c) < child_rank(d)(id) {
            lemma_descendants_walk(d, c);
            let wc = crate::ops::traverse::walk_spec(d, c);
            assert(wc[0] == c);
            assert(wc =~= seq![c] + wc.drop_first());
            assert(desc_kids(d, id, cs, k) =~= crate::ops::traverse::walk_kids(d, id, cs, k));
        } else {
            assert(desc_kids(d, id, cs, k) =~= crate::ops::traverse::walk_kids(d, id, cs, k));
        }
    }
}

/// The descendants of a block are its walk without the block itself, when
/// no block lists the root among its children.
pub proof fn law_descendants_are_the_walk_below(d: DocModel, id: BlockId)
    requires
        root_unlisted(d),
        id != d.block.id,
    ensures
        descendants(d, id) == crate::ops::traverse::walk_spec(d, id).drop_first(),
{
    lemma_descendants_walk(d, id);
}

/// The lines of a block together with all of its descendants.
pub open spec fn content_range(d: DocModel, m: NodeModel) -> LineRange {
    LineRange { start: m.block().line_range.start, end: max_line(max_end(d, m.block().id), m.block().line_range.end) }
}

/// The largest last line over the subtree of a block, used to determine
/// where to append content within a section.
pub fn last_descendant_line_end(doc: &DocumentBlock, block_id: BlockId) -> (r: usize)
    requires
        acyclic(doc@),
    ensures
        r == max_end(doc@, block_id),
    decreases child_rank(doc@)(block_id),
{
    let ghost d = doc@;
    match doc.get_block(block_id) {
        None => 0,
        Some(bn) => {
            let b = bn.block();
            let ghost cs = b.children_ids@;
            proof {
                lemma_acyclic_kids(d, block_id);
                assert forall|k: int| 0 <= k < cs.len() implies #[trigger] child_rank(d)(cs[k]) < child_rank(d)(block_id) by {
                    assert(bn@.block().children[k] == cs[k]);
                }
            }
            let mut best: usize = 0;
            let mut i: usize = 0;
            while i < b.children_ids.len()
                invariant
                    d == doc@,
                    acyclic(d),
                    cs == b.children_ids@,
                    forall|k: int| 0 <= k < cs.len() ==> #[trigger] child_rank(d)(cs[k]) < child_rank(d)(block_id),
                    i <= cs.len(),
                    best == kids_max(d, block_id, cs, i as int),
                decreases cs.len() - i,
            {
                let c = b.children_ids[i];
                let v = last_descendant_line_end(doc, c);
                if v > best {
                    best = v;
                }
                i = i + 1;
            }
            if best >= b.line_range.end {
                best
            } else {
                b.line_range.end
            }
        },
    }
}

fn collect_into(doc: &DocumentBlock, id: BlockId, out: &mut Vec<BlockId>)
    requires
        acyclic(doc@),
    ensures
        final(out)@ == old(out)@ + descendants(doc@, id),
    decreases child_rank(doc@)(id),
{
    let ghost d = doc@;
    let ghost base = old(out)@;
    match doc.get_block(id) {
        None => {
            assert(out@ =~= base + descendants(d, id));
        },
        Some(bn) => {
            let b = bn.block();
            let ghost cs = b.children_ids@;
            proof {
                lemma_acyclic_kids(d, id);
                assert forall|k: int| 0 <= k < cs.len() implies #[trigger] child_rank(d)(cs[k]) < child_rank(d)(id) by {
                    assert(bn@.block().children[k] == cs[k]);
                }
            }
            let mut i: usize = 0;
            assert(out@ =~= base + desc_kids(d, id, cs, 0));
            while i < b.children_ids.len()
                invariant
                    d == doc@,
                    acyclic(d),
                    cs == b.children_ids@,
                    forall|k: int| 0 <= k < cs.len() ==> #[trigger] child_rank(d)(cs[k]) < child_rank(d)(id),
                    i <= cs.len(),
                    out@ == base + desc_kids(d, id, cs, i as int),
                decreases cs.len() - i,
            {
                let c = b.children_ids[i];
                out.push(c);
                collect_into(doc, c, out);
                assert(out@ =~= base + desc_kids(d, id, cs, i + 1));
                i = i + 1;
            }
        },
    }
}

/// All descendant block ids of a block, depth-first (pre-order), itself
/// excluded.
pub fn collect_descendants(doc: &DocumentBlock, block_id: BlockId) -> (r: Vec<BlockId>)
    requires
        acyclic(doc@),
    ensures
        r@ == descendants(doc@, block_id),
{
    let mut out: Vec<BlockId> = Vec::new();
    collect_into(doc, block_id, &mut out);
    assert(out@ =~= descendants(doc@, block_id));
    out
}

/// The line range of a block together with all of its descendants.
pub fn block_content_line_range(doc: &DocumentBlock, block: &BlockNode) -> (r: LineRange)
    requires
        acyclic(doc@),
    ensures
        r == content_range(doc@, block@),
{
    let own = block.block().line_range;
    let end = last_descendant_line_end(doc, block.block().id);
    LineRange { start: own.start, end: if end >= own.end { end } else { own.end } }
}

} // verus!
