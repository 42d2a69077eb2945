use vstd::prelude::*;

use crate::domain::block_node::{BlockNode, NodeModel};
use crate::domain::document::{has_id, DocModel, DocumentBlock};
use crate::domain::selectors::{BlockSelector, SelectorModel};
use crate::error::{ErrorModel, MdtoolError};
use crate::ops::traverse::has_path;
use crate::primitives::BlockId;
use crate::text::{append, chars_eq, chars_of, decimal, decimal_chars, join_with, string_of};

verus! {

broadcast use vstd::std_specs::vec::group_vec_axioms;

// ---------------------------------------------------------------------------
// Specifications
// ---------------------------------------------------------------------------

/// Whether a block satisfies the query fields (title, level, type) of a
/// selector; a field that is absent accepts every block.
pub open spec fn matches_query_spec(m: NodeModel, sel: SelectorModel) -> bool {
    &&& (sel.title matches Some(t) ==> m matches NodeModel::Section { title, .. } && title == t)
    &&& (sel.level matches Some(l) ==> m matches NodeModel::Section { level, .. } && level == l)
    &&& (sel.block_type matches Some(bt) ==> m.kind_name() == bt)
}

/// Whether a block is a candidate for a non-empty selector without an id:
/// by path when a path is given, else by the query fields.
pub open spec fn candidate(m: NodeModel, sel: SelectorModel) -> bool {
    match sel.path {
        Some(p) => has_path(m, p),
        None => matches_query_spec(m, sel),
    }
}

/// The number of candidates among the first `k` blocks.
pub open spec fn candidate_count(blocks: Seq<NodeModel>, sel: SelectorModel, k: int) -> nat
    decreases k,
{
    if k <= 0 {
        0
    } else {
        candidate_count(blocks, sel, k - 1) + if candidate(blocks[k - 1], sel) { 1nat } else { 0nat }
    }
}

/// The position of the candidate among the first `k` blocks that starts
/// on the earliest line; among several on one line, the earliest position.
pub open spec fn best_candidate(blocks: Seq<NodeModel>, sel: SelectorModel, k: int) -> Option<int>
    decreases k,
{
    if k <= 0 {
        None
    } else {
        let prev = best_candidate(blocks, sel, k - 1);
        if candidate(blocks[k - 1], sel) {
            match prev {
                Some(j) => if blocks[k - 1].block().line_range.start < blocks[j].block().line_range.start {
                    Some(k - 1)
                } else {
                    Some(j)
                },
                None => Some(k - 1),
            }
        } else {
            prev
        }
    }
}

/// The human-readable summary of a selector's query fields.
pub open spec fn summary_spec(sel: SelectorModel) -> Seq<char> {
    let parts = (match sel.title {
        Some(t) => seq!["title="@ + t],
        None => Seq::empty(),
    }) + (match sel.level {
        Some(l) => seq!["level="@ + decimal(l as nat)],
        None => Seq::empty(),
    }) + (match sel.block_type {
        Some(bt) => seq!["block_type="@ + bt],
        None => Seq::empty(),
    }) + (match sel.block_index {
        Some(i) => seq!["block_index="@ + decimal(i as nat)],
        None => Seq::empty(),
    });
    join_with(parts, ", "@)
}

/// How a selector names itself in error messages.
pub open spec fn selector_label(sel: SelectorModel) -> Seq<char> {
    match sel.path {
        Some(p) => "path="@ + p,
        None => summary_spec(sel),
    }
}

/// The outcome of resolving a selector against a document.
pub open spec fn resolve_spec(d: DocModel, sel: SelectorModel) -> Result<BlockId, ErrorModel> {
    if sel.spec_is_empty() {
        Ok(d.block.id)
    } else if sel.id is Some {
        let id = sel.id.unwrap();
        if id == d.block.id || has_id(d.blocks, id) {
            Ok(id)
        } else {
            Err(ErrorModel::BlockNotFound { selector: "id=BlockId("@ + decimal(id.0 as nat) + ")"@ })
        }
    } else {
        let n = candidate_count(d.blocks, sel, d.blocks.len() as int);
        if n == 0 {
            Err(ErrorModel::BlockNotFound { selector: selector_label(sel) })
        } else if n == 1 || sel.allow_first_match {
            Ok(d.blocks[best_candidate(d.blocks, sel, d.blocks.len() as int).unwrap()].block().id)
        } else {
            Err(ErrorModel::AmbiguousBlock { selector: selector_label(sel), n: n as usize })
        }
    }
}

// ---------------------------------------------------------------------------
// Implementation
// ---------------------------------------------------------------------------

proof fn lemma_best_some(blocks: Seq<NodeModel>, sel: SelectorModel, k: int)
    ensures
        candidate_count(blocks, sel, k) > 0 <==> best_candidate(blocks, sel, k) is Some,
        best_candidate(blocks, sel, k) matches Some(j) ==> 0 <= j < k,
    decreases k,
{
    if k > 0 {
        lemma_best_some(blocks, sel, k - 1);
    }
}

/// The selector of a canonical section path.
pub open spec fn path_selector(path: Seq<char>, allow_first_match: bool) -> SelectorModel {
    SelectorModel { path: Some(path), allow_first_match, ..SelectorModel::empty() }
}

/// With one candidate only, at position `i`, the count is one past it and
/// the best candidate is that one.
proof fn lemma_single_candidate(blocks: Seq<NodeModel>, sel: SelectorModel, i: int, k: int)
    requires
        0 <= i < blocks.len(),
        0 <= k <= blocks.len(),
        candidate(blocks[i], sel),
        forall|j: int| 0 <= j < blocks.len() && j != i ==> !candidate(#[trigger] blocks[j], sel),
    ensures
        candidate_count(blocks, sel, k) == (if i < k { 1nat } else { 0nat }),
        best_candidate(blocks, sel, k) == (if i < k { Some(i) } else { None::<int> }),
    decreases k,
{
    if k > 0 {
        lemma_single_candidate(blocks, sel, i, k - 1);
    }
}

/// Two candidates make the count at least two.
proof fn lemma_two_candidates(blocks: Seq<NodeModel>, sel: SelectorModel, i: int, j: int, k: int)
    requires
        0 <= i < j < k <= blocks.len(),
        candidate(blocks[i], sel),
        candidate(blocks[j], sel),
    ensures
        candidate_count(blocks, sel, k) >= 2,
    decreases k,
{
    if k - 1 > j {
        lemma_two_candidates(blocks, sel, i, j, k - 1);
    } else {
        lemma_count_positive(blocks, sel, i, k - 1);
    }
}

proof fn lemma_count_le(blocks: Seq<NodeModel>, sel: SelectorModel, k: int)
    requires
        0 <= k <= blocks.len(),
    ensures
        candidate_count(blocks, sel, k) <= k,
    decreases k,
{
    if k > 0 {
        lemma_count_le(blocks, sel, k - 1);
    }
}

proof fn lemma_count_positive(blocks: Seq<NodeModel>, sel: SelectorModel, i: int, k: int)
    requires
        0 <= i < k <= blocks.len(),
        candidate(blocks[i], sel),
    ensures
        candidate_count(blocks, sel, k) >= 1,
    decreases k,
{
    if k - 1 > i {
        lemma_count_positive(blocks, sel, i, k - 1);
    }
}

/// Selecting by path is consistent: a section whose canonical path no other
/// section shares is what its path resolves to, whether or not the first
/// match is allowed.
pub proof fn law_unique_path_resolves_to_its_section(d: DocModel, i: int, allow_first_match: bool)
    requires
        0 <= i < d.blocks.len(),
        d.blocks[i] is Section,
        forall|j: int|
            0 <= j < d.blocks.len() && j != i ==> !has_path(#[trigger] d.blocks[j], d.blocks[i]->Section_path),
    ensures
        resolve_spec(d, path_selector(d.blocks[i]->Section_path, allow_first_match)) == Ok::<BlockId, ErrorModel>(
            d.blocks[i].block().id,
        ),
{
    let sel = path_selector(d.blocks[i]->Section_path, allow_first_match);
    assert(candidate(d.blocks[i], sel));
    lemma_single_candidate(d.blocks, sel, i, d.blocks.len() as int);
}

/// Under duplicate headings, a path that two sections share does not
/// resolve unless the first match is allowed: it is ambiguous, with the
/// number of sections that share it.
pub proof fn law_shared_path_is_ambiguous(d: DocModel, i: int, j: int)
    requires
        0 <= i < j < d.blocks.len() <= usize::MAX,
        d.blocks[i] is Section,
        has_path(d.blocks[j], d.blocks[i]->Section_path),
    ensures
        ({
            let p = d.blocks[i]->Section_path;
            let sel = path_selector(p, false);
            resolve_spec(d, sel) matches Err(ErrorModel::AmbiguousBlock { selector, n }) && selector == "path="@ + p
                && n >= 2
        }),
{
    let p = d.blocks[i]->Section_path;
    let sel = path_selector(p, false);
    assert(candidate(d.blocks[i], sel));
    assert(candidate(d.blocks[j], sel));
    lemma_two_candidates(d.blocks, sel, i, j, d.blocks.len() as int);
    lemma_count_le(d.blocks, sel, d.blocks.len() as int);
}

fn text_eq(a: &String, b: &String) -> (r: bool)
    ensures
        r == (a@ == b@),
{
    let x = chars_of(a.as_str());
    let y = chars_of(b.as_str());
    chars_eq(x.as_slice(), y.as_slice())
}

/// Whether a block node satisfies the query fields of a selector.
fn matches_query(bn: &BlockNode, selector: &BlockSelector) -> (r: bool)
    ensures
        r == matches_query_spec(bn@, selector@),
{
    if let Some(title) = &selector.title {
        match bn {
            BlockNode::Section(s) => {
                if !text_eq(&s.title, title) {
                    return false;
                }
            },
            _ => return false,
        }
    }
    if let Some(level) = selector.level {
        match bn {
            BlockNode::Section(s) => {
                if s.level != level {
                    return false;
                }
            },
            _ => return false,
        }
    }
    if let Some(bt) = &selector.block_type {
        let name = chars_of(bn.block_type_name());
        let want = chars_of(bt.as_str());
        if !chars_eq(name.as_slice(), want.as_slice()) {
            return false;
        }
    }
    true
}

fn is_candidate(bn: &BlockNode, selector: &BlockSelector) -> (r: bool)
    ensures
        r == candidate(bn@, selector@),
{
    match &selector.path {
        Some(p) => match bn {
            BlockNode::Section(s) => text_eq(&s.path, p),
            _ => false,
        },
        None => matches_query(bn, selector),
    }
}

fn push_part(parts: &mut Vec<Vec<char>>, label: &str, value: &[char])
    ensures
        crate::text::views(final(parts)@) == crate::text::views(old(parts)@).push(label@ + value@),
{
    let mut p = chars_of(label);
    append(&mut p, value);
    let ghost before = crate::text::views(parts@);
    parts.push(p);
    assert(crate::text::views(parts@) =~= before.push(label@ + value@));
}

/// A human-readable summary of the selector's query fields, for error
/// messages.
fn selector_summary(selector: &BlockSelector) -> (r: String)
    ensures
        r@ == summary_spec(selector@),
{
    let mut parts: Vec<Vec<char>> = Vec::new();
    let ghost sel = selector@;
    let ghost p1: Seq<Seq<char>> = match sel.title {
        Some(t) => seq!["title="@ + t],
        None => Seq::empty(),
    };
    let ghost p2: Seq<Seq<char>> = match sel.level {
        Some(l) => seq!["level="@ + decimal(l as nat)],
        None => Seq::empty(),
    };
    let ghost p3: Seq<Seq<char>> = match sel.block_type {
        Some(bt) => seq!["block_type="@ + bt],
        None => Seq::empty(),
    };
    let ghost p4: Seq<Seq<char>> = match sel.block_index {
        Some(i) => seq!["block_index="@ + decimal(i as nat)],
        None => Seq::empty(),
    };
    if let Some(t) = &selector.title {
        push_part(&mut parts, "title=", chars_of(t.as_str()).as_slice());
    }
    assert(crate::text::views(parts@) =~= p1);
    if let Some(l) = selector.level {
        push_part(&mut parts, "level=", decimal_chars(l as usize).as_slice());
    }
    assert(crate::text::views(parts@) =~= p1 + p2);
    if let Some(bt) = &selector.block_type {
        push_part(&mut parts, "block_type=", chars_of(bt.as_str()).as_slice());
    }
    assert(crate::text::views(parts@) =~= p1 + p2 + p3);
    if let Some(i) = selector.block_index {
        push_part(&mut parts, "block_index=", decimal_chars(i).as_slice());
    }
    assert(crate::text::views(parts@) =~= p1 + p2 + p3 + p4);
    let sep = chars_of(", ");
    let joined = crate::text::join(&parts, sep.as_slice());
    string_of(joined.as_slice())
}

fn label_of(selector: &BlockSelector) -> (r: String)
    ensures
        r@ == selector_label(selector@),
{
    match &selector.path {
        Some(p) => {
            let mut v = chars_of("path=");
            append(&mut v, chars_of(p.as_str()).as_slice());
            string_of(v.as_slice())
        },
        None => selector_summary(selector),
    }
}

/// Resolve a `BlockSelector` to a single `BlockId`.
///
/// Resolution strategy (in priority order): by id; by canonical path; by
/// the query fields (`title`, `level`, `block_type`). An empty selector
/// resolves to the document root. No match gives `BlockNotFound`, one match
/// its id, several matches `AmbiguousBlock` unless `allow_first_match` is
/// set, in which case the match that starts on the earliest line is taken.
pub fn resolve_selector(doc: &DocumentBlock, selector: &BlockSelector) -> (r: Result<BlockId, MdtoolError>)
    ensures
        match r {
            Ok(id) => resolve_spec(doc@, selector@) == Ok::<BlockId, ErrorModel>(id),
            Err(e) => resolve_spec(doc@, selector@) == Err::<BlockId, ErrorModel>(e@),
        },
{
    if selector.is_empty() {
        return Ok(doc.root_id());
    }
    if let Some(id) = selector.id {
        if id == doc.root_id() {
            return Ok(id);
        }
        if doc.position_of(id).is_some() {
            return Ok(id);
        }
        let mut s = chars_of("id=BlockId(");
        append(&mut s, decimal_chars(id.0 as usize).as_slice());
        append(&mut s, chars_of(")").as_slice());
        return Err(MdtoolError::BlockNotFound { selector: string_of(s.as_slice()) });
    }
    let ghost blocks = doc@.blocks;
    let ghost sel = selector@;
    let mut count: usize = 0;
    let mut best: Option<usize> = None;
    let mut i: usize = 0;
    while i < doc.block_by_id.len()
        invariant
            i <= blocks.len(),
            blocks == doc@.blocks,
            sel == selector@,
            count == candidate_count(blocks, sel, i as int),
            count <= i,
            match best {
                Some(j) => best_candidate(blocks, sel, i as int) == Some(j as int),
                None => best_candidate(blocks, sel, i as int) is None,
            },
        decreases blocks.len() - i,
    {
        let bn = &doc.block_by_id[i];
        assert(bn@ == blocks[i as int]);
        proof {
            lemma_best_some(blocks, sel, i as int);
        }
        if is_candidate(bn, selector) {
            count = count + 1;
            match best {
                Some(j) => {
                    assert(blocks[j as int] == doc.block_by_id@[j as int]@);
                    if bn.block().line_range.start < doc.block_by_id[j].block().line_range.start {
                        best = Some(i);
                    }
                },
                None => {
                    best = Some(i);
                },
            }
        }
        i = i + 1;
    }
    proof {
        lemma_best_some(blocks, sel, blocks.len() as int);
    }
    if count == 0 {
        return Err(MdtoolError::BlockNotFound { selector: label_of(selector) });
    }
    if count == 1 || selector.allow_first_match {
        let j = best.unwrap();
        return Ok(doc.block_by_id[j].block().id);
    }
    Err(MdtoolError::AmbiguousBlock { selector: label_of(selector), n: count })
}

} // verus!
