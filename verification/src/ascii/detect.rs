use vstd::prelude::*;

use crate::ascii::model::{AsciiBlock, AsciiBlockModel};
use crate::domain::block_node::{BlockNode, NodeModel};
use crate::domain::document::{DocModel, DocumentBlock};
use crate::text::{chars_eq, chars_of, lines_of, lines_of_str, lowercase, lowercase_chars, string_views, strings_of, views};

verus! {

broadcast use vstd::std_specs::vec::group_vec_axioms;

/// Whether a fence info string names ASCII art: `ascii`, `box` or
/// `diagram`, in any case.
pub open spec fn is_ascii_info(info: Seq<char>) -> bool {
    let l = lowercase(info);
    l == "ascii"@ || l == "box"@ || l == "diagram"@
}

/// The number of leading spaces (and tabs, when `tabs`) of a line.
pub open spec fn lead_len(l: Seq<char>, tabs: bool) -> nat
    decreases l.len(),
{
    if l.len() > 0 && (l[0] == ' ' || (tabs && l[0] == '\t')) {
        1 + lead_len(l.drop_first(), tabs)
    } else {
        0
    }
}

/// The smallest indentation among the non-empty of the first `k` lines.
pub open spec fn min_lead(lines: Seq<Seq<char>>, tabs: bool, k: int) -> Option<nat>
    decreases k,
{
    if k <= 0 {
        None
    } else {
        let prev = min_lead(lines, tabs, k - 1);
        let l = lines[k - 1];
        if l.len() == 0 {
            prev
        } else {
            match prev {
                Some(m) => if lead_len(l, tabs) < m { Some(lead_len(l, tabs)) } else { Some(m) },
                None => Some(lead_len(l, tabs)),
            }
        }
    }
}

/// The smallest indentation of the non-empty lines (0 when there is none).
pub open spec fn min_indent_of(lines: Seq<Seq<char>>, tabs: bool) -> nat {
    match min_lead(lines, tabs, lines.len() as int) {
        Some(m) => m,
        None => 0,
    }
}

/// The ASCII art block of a fence whose info string names ASCII art.
pub open spec fn ascii_of(m: NodeModel) -> Option<AsciiBlockModel> {
    match m {
        NodeModel::Fence { block, info_string: Some(info), raw_text, .. } => if is_ascii_info(info) {
            Some(AsciiBlockModel {
                block_id: block.id,
                info_string: info,
                indent: min_indent_of(lines_of(raw_text), true) as usize,
                lines: lines_of(raw_text),
            })
        } else {
            None
        },
        _ => None,
    }
}

/// The ASCII art blocks among the first `k` blocks, in order.
pub open spec fn ascii_blocks(blocks: Seq<NodeModel>, k: int) -> Seq<AsciiBlockModel>
    decreases k,
{
    if k <= 0 {
        Seq::empty()
    } else {
        match ascii_of(blocks[k - 1]) {
            Some(a) => ascii_blocks(blocks, k - 1).push(a),
            None => ascii_blocks(blocks, k - 1),
        }
    }
}

/// Returns true if the info string identifies an ASCII art block.
fn is_ascii_info_string(info_string: &str) -> (r: bool)
    ensures
        r == is_ascii_info(info_string@),
{
    let lower = lowercase_chars(chars_of(info_string).as_slice());
    let a = chars_of("ascii");
    let b = chars_of("box");
    let c = chars_of("diagram");
    chars_eq(lower.as_slice(), a.as_slice()) || chars_eq(lower.as_slice(), b.as_slice()) || chars_eq(
        lower.as_slice(),
        c.as_slice(),
    )
}

/// The number of leading spaces (and tabs, when `tabs`) of a line.
pub fn leading(l: &[char], tabs: bool) -> (r: usize)
    ensures
        r == lead_len(l@, tabs),
        r <= l@.len(),
{
    let mut i: usize = 0;
    assert(l@.skip(0) =~= l@);
    while i < l.len() && (l[i] == ' ' || (tabs && l[i] == '\t'))
        invariant
            i <= l@.len(),
            lead_len(l@, tabs) == i + lead_len(l@.skip(i as int), tabs),
        decreases l@.len() - i,
    {
        assert(l@.skip(i as int).drop_first() =~= l@.skip(i + 1));
        i = i + 1;
    }
    i
}

/// The smallest indentation across the non-empty lines (0 when there is
/// none); tabs count as indentation when `tabs`.
pub fn compute_min_indent(lines: &Vec<Vec<char>>, tabs: bool) -> (r: usize)
    ensures
        r == min_indent_of(views(lines@), tabs),
{
    let ghost ls = views(lines@);
    let mut best: Option<usize> = None;
    let mut i: usize = 0;
    while i < lines.len()
        invariant
            i <= lines@.len(),
            ls == views(lines@),
            match best {
                Some(b) => min_lead(ls, tabs, i as int) == Some(b as nat),
                None => min_lead(ls, tabs, i as int) is None,
            },
        decreases lines@.len() - i,
    {
        assert(ls[i as int] == lines@[i as int]@);
        if lines[i].len() > 0 {
            let lead = leading(lines[i].as_slice(), tabs);
            best = match best {
                Some(b) => if lead < b { Some(lead) } else { Some(b) },
                None => Some(lead),
            };
        }
        i = i + 1;
    }
    match best {
        Some(b) => b,
        None => 0,
    }
}

/// The ASCII art blocks of a document: the fences whose info string is
/// `ascii`, `box` or `diagram` (in any case), in order, each with its lines
/// and their smallest indentation.
pub fn detect_ascii_blocks(doc: &DocumentBlock) -> (r: Vec<AsciiBlock>)
    ensures
        r@.len() == ascii_blocks(doc@.blocks, doc@.blocks.len() as int).len(),
        forall|i: int| 0 <= i < r@.len() ==> #[trigger] r@[i]@ == ascii_blocks(doc@.blocks, doc@.blocks.len() as int)[i],
{
    let ghost blocks = doc@.blocks;
    let mut results: Vec<AsciiBlock> = Vec::new();
    let mut i: usize = 0;
    while i < doc.block_by_id.len()
        invariant
            i <= blocks.len(),
            blocks == doc@.blocks,
            results@.len() == ascii_blocks(blocks, i as int).len(),
            forall|q: int| 0 <= q < results@.len() ==> #[trigger] results@[q]@ == ascii_blocks(blocks, i as int)[q],
        decreases blocks.len() - i,
    {
        let node = &doc.block_by_id[i];
        assert(node@ == blocks[i as int]);
        match node {
            BlockNode::Fence(fence) => {
                match &fence.info_string {
                    Some(info) => {
                        if is_ascii_info_string(info.as_str()) {
                            let ls = lines_of_str(fence.raw_text.as_str());
                            let indent = compute_min_indent(&ls, true);
                            let lines = strings_of(&ls);
                            results.push(AsciiBlock { block_id: fence.block.id, info_string: info.clone(), indent, lines });
                        }
                    },
                    None => {},
                }
            },
            _ => {},
        }
        i = i + 1;
    }
    results
}

} // verus!
