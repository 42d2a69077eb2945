//! Structural writes: each edit is a patch of the source lines followed by
//! a reparse of the patched text.

use vstd::prelude::*;

use crate::builder::tree_builder::{build_spec, buildable, built_from, law_built_from_is_well_founded};
use crate::domain::block::{Block, BlockModel};
use crate::domain::block_node::{BlockNode, NodeModel};
use crate::domain::document::{acyclic, line_count_of, lookup, text_for_range, wf, DocModel, DocumentBlock};
use crate::domain::selectors::{BlockSelector, SelectorModel};
use crate::error::{diag_views, Diagnostic, ErrorModel, MdtoolError};
use crate::infrastructure::parser::{gfm_doc, nonempty_parts, sat_dec, split_char_state, split_on};
use crate::ops::diff::{
    block_content_line_range, content_range, diff_spec, last_descendant_line_end, max_end, no_change, patch_and_reparse,
    patch_spec, unchanged_summary, DiffSummary,
};
use crate::ops::read::id_label;
use crate::ops::resolve::{resolve_selector, resolve_spec};
use crate::primitives::{BlockId, LineRange};
use crate::text::{append, chars_of, is_blank, join, join_with, lines_of, split_lines, string_of, trim_ws, views};

verus! {

broadcast use vstd::std_specs::vec::group_vec_axioms;

// ---------------------------------------------------------------------------
// Specifications
// ---------------------------------------------------------------------------

/// `n + 1`, or `n` when that would overflow.
pub open spec fn sat_inc(n: usize) -> usize {
    if n < usize::MAX { (n + 1) as usize } else { n }
}

/// The empty range that inserts before `line`.
pub open spec fn before_range(line: usize) -> LineRange {
    LineRange { start: line, end: sat_dec(line) }
}

/// The empty range that appends after the last of `n` lines.
pub open spec fn append_range(n: usize) -> LineRange {
    LineRange { start: sat_inc(n), end: n }
}

/// A text with its leading newlines removed (`trim_start_matches('\n')`).
pub open spec fn trim_leading_newlines(s: Seq<char>) -> Seq<char>
    decreases s.len(),
{
    if s.len() > 0 && s[0] == '\n' {
        trim_leading_newlines(s.drop_first())
    } else {
        s
    }
}

/// The block a selector designates among the blocks (the root is not one
/// of them), or the error.
pub open spec fn resolve_block_spec(d: DocModel, sel: SelectorModel) -> Result<NodeModel, ErrorModel> {
    match resolve_spec(d, sel) {
        Ok(id) => match lookup(d.blocks, id) {
            Some(m) => Ok(m),
            None => Err(ErrorModel::BlockNotFound { selector: id_label(id) }),
        },
        Err(e) => Err(e),
    }
}

/// The lines an edit of a block covers: a section with its whole subtree,
/// any other block its own lines.
pub open spec fn edit_range_spec(d: DocModel, m: NodeModel) -> LineRange {
    if m is Section {
        content_range(d, m)
    } else {
        m.block().line_range
    }
}

/// The number of lines of a document.
pub open spec fn doc_lines(d: DocModel) -> usize {
    line_count_of(d.source_text) as usize
}

/// The patch that puts `text` after the line `end`: at the end of the
/// document (leading newlines dropped) when `end` is its last line or
/// beyond, else before the next line, followed by a newline.
pub open spec fn after_patch(d: DocModel, end: usize, text: Seq<char>) -> (LineRange, Seq<char>) {
    let il = sat_inc(end);
    let n = doc_lines(d);
    if il > n {
        (append_range(n), trim_leading_newlines("\n"@ + text))
    } else {
        (before_range(il), text + "\n"@)
    }
}

/// The patch (line range, replacement) that an edit makes, or its error.
pub type Plan = Result<(LineRange, Seq<char>), ErrorModel>;

/// The patch of `replace_block`.
pub open spec fn replace_plan(d: DocModel, sel: SelectorModel, text: Seq<char>) -> Plan {
    match resolve_block_spec(d, sel) {
        Ok(m) => Ok((edit_range_spec(d, m), text)),
        Err(e) => Err(e),
    }
}

/// The patch of `insert_block_before`: the text, ended by a line break and
/// a blank line that keeps it a block of its own, before the block's first
/// line.
pub open spec fn insert_before_plan(d: DocModel, sel: SelectorModel, text: Seq<char>) -> Plan {
    match resolve_block_spec(d, sel) {
        Ok(m) => Ok((before_range(m.block().line_range.start), text + "\n"@ + "\n"@)),
        Err(e) => Err(e),
    }
}

/// The patch of `insert_block_after`.
pub open spec fn insert_after_plan(d: DocModel, sel: SelectorModel, text: Seq<char>) -> Plan {
    match resolve_block_spec(d, sel) {
        Ok(m) => Ok(after_patch(d, edit_range_spec(d, m).end, text)),
        Err(e) => Err(e),
    }
}

/// The patch of `append_child`: after the last line of a section's
/// subtree; for any other block, as `insert_block_after`.
pub open spec fn append_child_plan(d: DocModel, sel: SelectorModel, text: Seq<char>) -> Plan {
    match resolve_block_spec(d, sel) {
        Ok(m) => if m is Section {
            let last = max_end(d, m.block().id);
            let n = doc_lines(d);
            if last >= n {
                Ok((append_range(n), trim_leading_newlines("\n"@ + text)))
            } else {
                Ok((before_range((last + 1) as usize), text + "\n"@))
            }
        } else {
            insert_after_plan(d, sel, text)
        },
        Err(e) => Err(e),
    }
}

/// The patch of `delete_block`: the block's lines removed, together with
/// the line before them when that one is blank.
pub open spec fn delete_plan(d: DocModel, sel: SelectorModel) -> Plan {
    match resolve_block_spec(d, sel) {
        Ok(m) => Ok((deletion_range_spec(d, m), Seq::empty())),
        Err(e) => Err(e),
    }
}

/// The text left by `delete_block` for a selector that resolves.
pub open spec fn deleted_text(d: DocModel, sel: SelectorModel) -> Seq<char> {
    match delete_plan(d, sel) {
        Ok((range, text)) => patch_spec(d.source_text, range, text),
        Err(_) => Seq::empty(),
    }
}

/// What an edit returns for a plan: the plan's error; or the document
/// rebuilt from the patched text, the diff from the old text to the patched
/// one, and the new document's diagnostics; or, exactly when the patched
/// text does not build into a tree, a parse error.
pub open spec fn write_outcome(
    d: DocModel,
    plan: Plan,
    r: Result<(DocumentBlock, DiffSummary, Vec<Diagnostic>), MdtoolError>,
) -> bool {
    match plan {
        Err(e) => r matches Err(x) && x@ == e,
        Ok((range, text)) => match r {
            Ok((nd, df, dg)) => {
                let p = patch_spec(d.source_text, range, text);
                &&& built_from(p, nd@)
                &&& df@ == diff_spec(d.source_text, p)
                &&& diag_views(dg@) == nd@.diagnostics
            },
            Err(x) => x is Parse && !buildable(patch_spec(d.source_text, range, text)),
        },
    }
}

/// Every successful edit leaves a consistent tree: the new document is
/// built from the patched text, and its tree is well founded.
pub proof fn law_edit_leaves_consistent_tree(
    d: DocModel,
    plan: Plan,
    r: Result<(DocumentBlock, DiffSummary, Vec<Diagnostic>), MdtoolError>,
)
    requires
        write_outcome(d, plan, r),
    ensures
        match (plan, r) {
            (Ok((range, text)), Ok((nd, _, _))) => {
                &&& built_from(patch_spec(d.source_text, range, text), nd@)
                &&& wf(nd@)
            },
            _ => true,
        },
{
    match (plan, r) {
        (Ok((range, text)), Ok((nd, _, _))) => {
            law_built_from_is_well_founded(patch_spec(d.source_text, range, text), nd@);
        },
        _ => {},
    }
}

/// A patch keeps the text's final line break: a text that ends with one
/// still does after the patch, unless nothing is left of it.
pub proof fn law_patch_keeps_final_newline(text: Seq<char>, range: LineRange, new_text: Seq<char>)
    requires
        text.len() > 0,
        text.last() == '\n',
    ensures
        patch_spec(text, range, new_text).len() == 0 || patch_spec(text, range, new_text).last() == '\n',
{
}

/// The line at which a new child goes under a block with the given data:
/// before the child at `index` (the first for 0), after the subtree of the
/// last child for no index or one past the end, and after the block's own
/// lines when it has no children or the child is missing.
pub open spec fn insert_line_spec(d: DocModel, parent: BlockModel, index: Option<usize>) -> usize {
    let cs = parent.children;
    let fallback = sat_inc(parent.line_range.end);
    let after_last = match lookup(d.blocks, cs.last()) {
        Some(c) => sat_inc(content_range(d, c).end),
        None => fallback,
    };
    if cs.len() == 0 {
        fallback
    } else {
        match index {
            Some(idx) => if idx >= cs.len() {
                after_last
            } else {
                match lookup(d.blocks, cs[idx as int]) {
                    Some(c) => c.block().line_range.start,
                    None => fallback,
                }
            },
            None => after_last,
        }
    }
}

/// The selector of a canonical path.
pub open spec fn path_selector(path: Seq<char>) -> SelectorModel {
    SelectorModel { path: Some(path), ..SelectorModel::empty() }
}

/// The title of the section that `ensure_section` adds: the last non-empty
/// segment of the path, or `Untitled`.
pub open spec fn path_title(path: Seq<char>) -> Seq<char> {
    let parts = nonempty_parts(split_on(path, '/'));
    if parts.len() > 0 {
        parts.last()
    } else {
        "Untitled"@
    }
}

/// The heading marker of a level: 1 to 6 `#` (the level clamped to 1..6).
pub open spec fn hashes(level: u8) -> Seq<char> {
    let n: int = if level < 1 { 1 } else if level > 6 { 6 } else { level as int };
    Seq::new(n as nat, |i: int| '#')
}

/// The non-empty segments of a path.
pub open spec fn path_parts(path: Seq<char>) -> Seq<Seq<char>> {
    nonempty_parts(split_on(path, '/'))
}

/// The canonical path of the section a path's section goes under: `/` and
/// every segment but the last, joined with `/`; `None` for a path of at most
/// one segment, whose section goes at the top level.
pub open spec fn parent_path(path: Seq<char>) -> Option<Seq<char>> {
    let ps = path_parts(path);
    if ps.len() <= 1 {
        None
    } else {
        Some("/"@ + join_with(ps.drop_last(), "/"@))
    }
}

/// A heading level clamped to 1..6.
pub open spec fn clamped_level(level: u8) -> int {
    if level < 1 { 1 } else if level > 6 { 6 } else { level as int }
}

/// The start line of the first block from position `i` on that is a
/// section starting after line `after` with a level below `level`: the
/// section that would take a new heading of that level placed after `after`
/// under itself.
pub open spec fn capturing_line(b: Seq<NodeModel>, after: usize, level: int, i: int) -> Option<usize>
    decreases b.len() - i,
{
    if i < 0 || i >= b.len() {
        None
    } else if b[i] is Section && b[i].block().line_range.start > after && (b[i]->Section_level as int) < level {
        Some(b[i].block().line_range.start)
    } else {
        capturing_line(b, after, level, i + 1)
    }
}

/// The error for a parent section too deep for the new heading's level.
pub open spec fn nesting_error() -> ErrorModel {
    ErrorModel::Validation("Heading level does not nest under the parent section"@)
}

/// The error for a new section that did not land at its path.
pub open spec fn placement_error(path: Seq<char>) -> ErrorModel {
    ErrorModel::Validation("Section could not be placed at path '"@ + path + "'"@)
}

/// The line after which the new section of `ensure_section` starts its
/// search for a place: 0 at the top level, else the start line of the
/// parent section (an error when that section is missing or not shallower).
pub open spec fn ensure_after(d: DocModel, path: Seq<char>, level: u8) -> Result<usize, ErrorModel> {
    match parent_path(path) {
        None => Ok(0usize),
        Some(pp) => match resolve_block_spec(d, path_selector(pp)) {
            Ok(m) => if m is Section && (m->Section_level as int) < clamped_level(level) {
                Ok(m.block().line_range.start)
            } else {
                Err(nesting_error())
            },
            Err(e) => Err(e),
        },
    }
}

/// The patch of `ensure_section` when the section is missing: its heading
/// line, placed so that it lands under its parent section (or at the top
/// level): before the first later section that would otherwise take it
/// under itself, followed by a blank line; else at the end of the document.
pub open spec fn ensure_plan(d: DocModel, path: Seq<char>, level: u8) -> Plan {
    let heading = hashes(level) + " "@ + path_title(path) + "\n"@;
    match ensure_after(d, path, level) {
        Err(e) => Err(e),
        Ok(a) => match capturing_line(d.blocks, a, clamped_level(level), 0) {
            Some(l) => Ok((before_range(l), heading + "\n"@)),
            None => {
                let n = doc_lines(d);
                Ok((if n == 0 { LineRange { start: 1, end: 0 } } else { append_range(n) }, heading))
            },
        },
    }
}

// ---------------------------------------------------------------------------
// Helpers
// ---------------------------------------------------------------------------

/// Resolve a selector to a block node, or an error when none is found.
fn resolve_block<'a>(doc: &'a DocumentBlock, selector: &BlockSelector) -> (r: Result<&'a BlockNode, MdtoolError>)
    ensures
        match r {
            Ok(bn) => resolve_block_spec(doc@, selector@) == Ok::<NodeModel, ErrorModel>(bn@),
            Err(e) => resolve_block_spec(doc@, selector@) == Err::<NodeModel, ErrorModel>(e@),
        },
{
    let block_id = resolve_selector(doc, selector)?;
    match doc.get_block(block_id) {
        Some(bn) => Ok(bn),
        None => Err(MdtoolError::BlockNotFound { selector: id_message(block_id) }),
    }
}

fn id_message(id: BlockId) -> (r: String)
    ensures
        r@ == id_label(id),
{
    let mut s = chars_of("id=BlockId(");
    append(&mut s, crate::text::decimal_chars(id.0 as usize).as_slice());
    append(&mut s, chars_of(")").as_slice());
    string_of(s.as_slice())
}

/// The effective line range for editing a block: a section's whole subtree,
/// any other block's own lines.
fn effective_edit_range(doc: &DocumentBlock, block: &BlockNode) -> (r: LineRange)
    requires
        acyclic(doc@),
    ensures
        r == edit_range_spec(doc@, block@),
{
    match block {
        BlockNode::Section(_) => block_content_line_range(doc, block),
        _ => block.block().line_range,
    }
}

fn copy_diagnostics(v: &Vec<Diagnostic>) -> (r: Vec<Diagnostic>)
    ensures
        diag_views(r@) == diag_views(v@),
{
    let mut out: Vec<Diagnostic> = Vec::new();
    let mut i: usize = 0;
    while i < v.len()
        invariant
            i <= v.len(),
            diag_views(out@) == diag_views(v@.take(i as int)),
        decreases v.len() - i,
    {
        let ghost before = diag_views(out@);
        out.push(v[i].duplicate());
        assert(diag_views(out@) =~= before.push(v@[i as int]@));
        assert(diag_views(v@.take(i + 1)) =~= diag_views(v@.take(i as int)).push(v@[i as int]@));
        i = i + 1;
    }
    assert(v@.take(v.len() as int) =~= v@);
    out
}

/// Apply a patch and reparse, returning the new document, the diff and the
/// new document's diagnostics.
fn apply_patch(doc: &DocumentBlock, range: LineRange, text: &[char]) -> (r: Result<
    (DocumentBlock, DiffSummary, Vec<Diagnostic>),
    MdtoolError,
>)
    ensures
        write_outcome(doc@, Ok((range, text@)), r),
{
    let t = string_of(text);
    let (_, new_doc, diff) = patch_and_reparse(doc, range, t.as_str())?;
    let diagnostics = copy_diagnostics(&new_doc.diagnostics);
    Ok((new_doc, diff, diagnostics))
}

fn with_newline(text: &str) -> (r: Vec<char>)
    ensures
        r@ == text@ + "\n"@,
{
    let mut v = chars_of(text);
    append(&mut v, chars_of("\n").as_slice());
    v
}

fn trim_newlines_after_break(text: &str) -> (r: Vec<char>)
    ensures
        r@ == trim_leading_newlines("\n"@ + text@),
{
    let mut v = chars_of("\n");
    append(&mut v, chars_of(text).as_slice());
    let mut i: usize = 0;
    assert(v@.skip(0) =~= v@);
    while i < v.len() && v[i] == '\n'
        invariant
            i <= v@.len(),
            trim_leading_newlines(v@) == trim_leading_newlines(v@.skip(i as int)),
        decreases v@.len() - i,
    {
        assert(v@.skip(i as int).drop_first() =~= v@.skip(i + 1));
        i = i + 1;
    }
    let mut out: Vec<char> = Vec::new();
    let mut k = i;
    while k < v.len()
        invariant
            i <= k <= v@.len(),
            out@ == v@.subrange(i as int, k as int),
        decreases v@.len() - k,
    {
        out.push(v[k]);
        k = k + 1;
    }
    assert(out@ =~= v@.skip(i as int));
    out
}

/// Apply the patch that puts `text` after the line `end`.
fn patch_after(doc: &DocumentBlock, end: usize, new_text: &str) -> (r: Result<
    (DocumentBlock, DiffSummary, Vec<Diagnostic>),
    MdtoolError,
>)
    ensures
        write_outcome(doc@, Ok(after_patch(doc@, end, new_text@)), r),
{
    let insert_line = if end < usize::MAX { end + 1 } else { end };
    let n = doc.line_count();
    if insert_line > n {
        let text = trim_newlines_after_break(new_text);
        let start = if n < usize::MAX { n + 1 } else { n };
        apply_patch(doc, LineRange { start, end: n }, text.as_slice())
    } else {
        let text = with_newline(new_text);
        let e = if insert_line >= 1 { insert_line - 1 } else { 0 };
        apply_patch(doc, LineRange { start: insert_line, end: e }, text.as_slice())
    }
}

// ---------------------------------------------------------------------------
// Public functions
// ---------------------------------------------------------------------------

/// Replace the block matched by `selector` (a section with its whole
/// subtree) with `new_text`, then reparse.
pub fn replace_block(doc: &DocumentBlock, selector: &BlockSelector, new_text: &str) -> (r: Result<
    (DocumentBlock, DiffSummary, Vec<Diagnostic>),
    MdtoolError,
>)
    requires
        acyclic(doc@),
    ensures
        write_outcome(doc@, replace_plan(doc@, selector@, new_text@), r),
{
    let block_node = resolve_block(doc, selector)?;
    let content_range = effective_edit_range(doc, block_node);
    let text = chars_of(new_text);
    apply_patch(doc, content_range, text.as_slice())
}

/// Insert `new_text` as a new block immediately before the block matched by
/// `selector`.
pub fn insert_block_before(doc: &DocumentBlock, selector: &BlockSelector, new_text: &str) -> (r: Result<
    (DocumentBlock, DiffSummary, Vec<Diagnostic>),
    MdtoolError,
>)
    ensures
        write_outcome(doc@, insert_before_plan(doc@, selector@, new_text@), r),
{
    let block_node = resolve_block(doc, selector)?;
    let insert_line = block_node.block().line_range.start;
    let e = if insert_line >= 1 { insert_line - 1 } else { 0 };
    let mut text = with_newline(new_text);
    append(&mut text, chars_of("\n").as_slice());
    apply_patch(doc, LineRange { start: insert_line, end: e }, text.as_slice())
}

/// Insert `new_text` as a new block immediately after the block matched by
/// `selector` (after the whole subtree of a section).
pub fn insert_block_after(doc: &DocumentBlock, selector: &BlockSelector, new_text: &str) -> (r: Result<
    (DocumentBlock, DiffSummary, Vec<Diagnostic>),
    MdtoolError,
>)
    requires
        acyclic(doc@),
    ensures
        write_outcome(doc@, insert_after_plan(doc@, selector@, new_text@), r),
{
    let block_node = resolve_block(doc, selector)?;
    let edit_range = effective_edit_range(doc, block_node);
    patch_after(doc, edit_range.end, new_text)
}

/// Append `new_text` as the last child of the section matched by
/// `selector`; for any other block this is `insert_block_after`.
pub fn append_child(doc: &DocumentBlock, selector: &BlockSelector, new_text: &str) -> (r: Result<
    (DocumentBlock, DiffSummary, Vec<Diagnostic>),
    MdtoolError,
>)
    requires
        acyclic(doc@),
    ensures
        write_outcome(doc@, append_child_plan(doc@, selector@, new_text@), r),
{
    let block_node = resolve_block(doc, selector)?;
    match block_node {
        BlockNode::Section(section) => {
            let last_line = last_descendant_line_end(doc, section.block.id);
            let n = doc.line_count();
            if last_line >= n {
                let text = trim_newlines_after_break(new_text);
                let start = if n < usize::MAX { n + 1 } else { n };
                apply_patch(doc, LineRange { start, end: n }, text.as_slice())
            } else {
                let text = with_newline(new_text);
                let insert_line = last_line + 1;
                apply_patch(doc, LineRange { start: insert_line, end: insert_line - 1 }, text.as_slice())
            }
        },
        _ => insert_block_after(doc, selector, new_text),
    }
}

/// Delete the block matched by `selector` (a section with its whole
/// subtree), together with the blank line before it, then reparse.
pub fn delete_block(doc: &DocumentBlock, selector: &BlockSelector) -> (r: Result<
    (DocumentBlock, DiffSummary, Vec<Diagnostic>),
    MdtoolError,
>)
    requires
        acyclic(doc@),
    ensures
        write_outcome(doc@, delete_plan(doc@, selector@), r),
{
    let block_node = resolve_block(doc, selector)?;
    let range = deletion_range(doc, block_node);
    let empty: Vec<char> = Vec::new();
    apply_patch(doc, range, empty.as_slice())
}

/// The lines that deleting a block removes: its edit range, with the blank
/// line before it when there is one.
pub open spec fn deletion_range_spec(d: DocModel, m: NodeModel) -> LineRange {
    let r = edit_range_spec(d, m);
    let before = if r.start > 1 { (r.start - 1) as usize } else { 0usize };
    let lines = lines_of(d.source_text);
    if before > 0 && before - 1 < lines.len() && trim_ws(lines[before - 1]).len() == 0 {
        LineRange { start: before, end: r.end }
    } else {
        r
    }
}

fn deletion_range(doc: &DocumentBlock, block: &BlockNode) -> (r: LineRange)
    requires
        acyclic(doc@),
    ensures
        r == deletion_range_spec(doc@, block@),
{
    let content_range = effective_edit_range(doc, block);
    let src = chars_of(doc.source_text.as_str());
    let lines = split_lines(src.as_slice());
    let before: usize = if content_range.start > 1 { content_range.start - 1 } else { 0 };
    let blank_before = before > 0 && before - 1 < lines.len() && is_blank(lines[before - 1].as_slice());
    if blank_before {
        LineRange { start: before, end: content_range.end }
    } else {
        content_range
    }
}

/// The line where a new child goes under the block with the given data.
fn insert_line_under(doc: &DocumentBlock, parent: &Block, index: Option<usize>) -> (r: usize)
    requires
        acyclic(doc@),
    ensures
        r == insert_line_spec(doc@, parent@, index),
{
    let children = &parent.children_ids;
    let fallback = if parent.line_range.end < usize::MAX { parent.line_range.end + 1 } else { parent.line_range.end };
    if children.len() == 0 {
        return fallback;
    }
    let last_id = children[children.len() - 1];
    let after_last = match doc.get_block(last_id) {
        Some(last_child) => {
            let e = block_content_line_range(doc, last_child).end;
            if e < usize::MAX { e + 1 } else { e }
        },
        None => fallback,
    };
    match index {
        Some(idx) => {
            if idx >= children.len() {
                after_last
            } else {
                match doc.get_block(children[idx]) {
                    Some(child) => child.block().line_range.start,
                    None => fallback,
                }
            }
        },
        None => after_last,
    }
}

/// The line where a new child goes under the root block.
fn compute_insert_line_for_root(doc: &DocumentBlock, index: Option<usize>) -> (r: usize)
    requires
        acyclic(doc@),
    ensures
        r == insert_line_spec(doc@, doc@.block, index),
{
    insert_line_under(doc, &doc.block, index)
}

/// The line where a new child goes under `parent`.
fn compute_insert_line_for_parent(doc: &DocumentBlock, parent: &BlockNode, index: Option<usize>) -> (r: usize)
    requires
        acyclic(doc@),
    ensures
        r == insert_line_spec(doc@, parent@.block(), index),
{
    insert_line_under(doc, parent.block(), index)
}

/// Where a line of a text ends up once the lines of `dr` are deleted: a
/// line after them moves up by their number, a line among them goes to
/// where they started.
pub open spec fn line_after_deletion(l: usize, dr: LineRange) -> usize {
    if dr.start <= dr.end && l > dr.end {
        (l - (dr.end - dr.start + 1)) as usize
    } else if dr.start <= dr.end && l >= dr.start {
        dr.start
    } else {
        l
    }
}

/// Move the block matched by `selector` under `target_parent_id`: the line
/// where the block's text (a block with its whole subtree) goes is found
/// under the target in the document as it is (before the child at `index`,
/// after its last child for no index); the text is then deleted, the rest
/// reparsed, and the text inserted at that line, shifted by the deletion.
pub fn move_block(doc: &DocumentBlock, selector: &BlockSelector, target_parent_id: BlockId, index: Option<usize>) -> (r:
    Result<(DocumentBlock, DiffSummary, Vec<Diagnostic>), MdtoolError>)
    requires
        acyclic(doc@),
    ensures
        move_outcome(doc@, selector@, target_parent_id, index, r),
{
    let block_node = resolve_block(doc, selector)?;
    let content_range = block_content_line_range(doc, block_node);
    let block_text = doc.source_text_for_range(content_range);
    let insert_line = if target_parent_id == doc.root_id() {
        compute_insert_line_for_root(doc, index)
    } else {
        match doc.get_block(target_parent_id) {
            Some(target_parent) => compute_insert_line_for_parent(doc, target_parent, index),
            None => {
                return Err(MdtoolError::BlockNotFound { selector: id_message(target_parent_id) });
            },
        }
    };
    let dr = deletion_range(doc, block_node);
    let (doc_after_delete, _, _) = delete_block(doc, selector)?;
    let line = if dr.start <= dr.end && insert_line > dr.end {
        insert_line - (dr.end - dr.start + 1)
    } else if dr.start <= dr.end && insert_line >= dr.start {
        dr.start
    } else {
        insert_line
    };
    let e = if line >= 1 { line - 1 } else { 0 };
    let text = with_newline(block_text.as_str());
    apply_patch(&doc_after_delete, LineRange { start: line, end: e }, text.as_slice())
}

/// What `move_block` returns: the selector's error; the target's absence
/// from the document; a parse error when the text without the block does
/// not build into a tree; or else, with `d2` the tree built from it, the
/// outcome of inserting the block's text (with its subtree) at the line
/// found under the target, shifted by the deletion.
pub open spec fn move_outcome(
    doc: DocModel,
    sel: SelectorModel,
    target_parent_id: BlockId,
    index: Option<usize>,
    r: Result<(DocumentBlock, DiffSummary, Vec<Diagnostic>), MdtoolError>,
) -> bool {
    match resolve_block_spec(doc, sel) {
        Err(e) => r matches Err(x) && x@ == e,
        Ok(m) => {
            let parent = if target_parent_id == doc.block.id { Some(doc.block) } else {
                match lookup(doc.blocks, target_parent_id) {
                    Some(p) => Some(p.block()),
                    None => None,
                }
            };
            match parent {
                None => r matches Err(x) && x@ == ErrorModel::BlockNotFound { selector: id_label(target_parent_id) },
                Some(p) => if !buildable(deleted_text(doc, sel)) {
                    r matches Err(x) && x is Parse
                } else {
                    let d2 = build_spec(gfm_doc(deleted_text(doc, sel)));
                    let line = line_after_deletion(insert_line_spec(doc, p, index), deletion_range_spec(doc, m));
                    let text = text_for_range(doc.source_text, content_range(doc, m)) + "\n"@;
                    write_outcome(d2, Ok((before_range(line), text)), r)
                },
            }
        },
    }
}

/// The title for a new section at a path: its last non-empty segment, or
/// `Untitled`.
fn title_of_path(path: &str) -> (r: Vec<char>)
    ensures
        r@ == path_title(path@),
{
    let p = chars_of(path);
    let mut cur: Vec<char> = Vec::new();
    let mut last: Option<Vec<char>> = None;
    let mut i: usize = 0;
    while i < p.len()
        invariant
            i <= p@.len(),
            p@ == path@,
            ({
                let (done, c) = split_char_state(p@.take(i as int), '/');
                &&& cur@ == c
                &&& match last {
                    Some(l) => nonempty_parts(done).len() > 0 && l@ == nonempty_parts(done).last(),
                    None => nonempty_parts(done).len() == 0,
                }
            }),
        decreases p@.len() - i,
    {
        assert(p@.take(i + 1).drop_last() =~= p@.take(i as int));
        let ghost (d0, c0) = split_char_state(p@.take(i as int), '/');
        proof {
            assert(d0.push(c0).drop_last() =~= d0);
            assert(d0.push(c0).last() == c0);
        }
        if p[i] == '/' {
            if cur.len() > 0 {
                last = Some(cur);
            }
            cur = Vec::new();
        } else {
            cur.push(p[i]);
        }
        i = i + 1;
    }
    assert(p@.take(p@.len() as int) =~= p@);
    let ghost (d, c) = split_char_state(p@, '/');
    proof {
        assert(d.push(c).drop_last() =~= d);
        assert(d.push(c).last() == c);
    }
    if cur.len() > 0 {
        cur
    } else {
        match last {
            Some(l) => l,
            None => chars_of("Untitled"),
        }
    }
}

/// What `ensure_section` returns: the document unchanged, with no change
/// and no diagnostics, when a section has the path; else the plan's error;
/// else, for the patched text, a parse error when it does not build into a
/// tree, a placement error when the path does not resolve in the tree it
/// builds into, and otherwise the outcome of the patch.
pub open spec fn ensure_outcome(
    doc: DocModel,
    path: Seq<char>,
    level: u8,
    r: Result<(DocumentBlock, DiffSummary, Vec<Diagnostic>), MdtoolError>,
) -> bool {
    if resolve_spec(doc, path_selector(path)) is Ok {
        r matches Ok((nd, df, dg)) && nd@ == doc && df@ == no_change() && dg@.len() == 0
    } else {
        match ensure_plan(doc, path, level) {
            Err(e) => r matches Err(x) && x@ == e,
            Ok((range, text)) => {
                let p = patch_spec(doc.source_text, range, text);
                if !buildable(p) {
                    r matches Err(x) && x is Parse
                } else if resolve_spec(build_spec(gfm_doc(p)), path_selector(path)) is Ok {
                    write_outcome(doc, Ok((range, text)), r)
                } else {
                    r matches Err(x) && x@ == placement_error(path)
                }
            },
        }
    }
}

/// The non-empty segments of a path, in order.
fn path_parts_of(path: &[char]) -> (r: Vec<Vec<char>>)
    ensures
        views(r@) == path_parts(path@),
        forall|k: int| 0 <= k < r@.len() ==> #[trigger] r@[k]@.len() > 0,
{
    let mut parts: Vec<Vec<char>> = Vec::new();
    let mut cur: Vec<char> = Vec::new();
    let mut i: usize = 0;
    while i < path.len()
        invariant
            i <= path@.len(),
            forall|k: int| 0 <= k < parts@.len() ==> #[trigger] parts@[k]@.len() > 0,
            (views(parts@), cur@) == ({
                let (d, c) = split_char_state(path@.take(i as int), '/');
                (nonempty_parts(d), c)
            }),
        decreases path@.len() - i,
    {
        assert(path@.take(i + 1).drop_last() == path@.take(i as int));
        let ghost (d0, c0) = split_char_state(path@.take(i as int), '/');
        proof {
            assert(d0.push(c0).drop_last() =~= d0);
            assert(d0.push(c0).last() == c0);
        }
        if path[i] == '/' {
            if cur.len() > 0 {
                let ghost before = views(parts@);
                parts.push(cur);
                assert(views(parts@) =~= before.push(parts@.last()@));
                assert(views(parts@).drop_last() =~= before);
            }
            cur = Vec::new();
        } else {
            cur.push(path[i]);
        }
        i = i + 1;
    }
    assert(path@.take(path@.len() as int) == path@);
    let ghost (d, c) = split_char_state(path@, '/');
    assert(d.push(c).drop_last() =~= d);
    assert(d.push(c).last() == c);
    if cur.len() > 0 {
        let ghost before = views(parts@);
        parts.push(cur);
        assert(views(parts@) =~= before.push(parts@.last()@));
        assert(views(parts@).drop_last() =~= before);
    }
    parts
}

/// Where `ensure_section` starts its search for a place (see
/// [`ensure_after`]).
fn ensure_after_line(doc: &DocumentBlock, path: &[char], level: u8) -> (r: Result<usize, MdtoolError>)
    ensures
        match r {
            Ok(a) => ensure_after(doc@, path@, level) == Ok::<usize, ErrorModel>(a),
            Err(e) => ensure_after(doc@, path@, level) == Err::<usize, ErrorModel>(e@),
        },
{
    let mut parts = path_parts_of(path);
    if parts.len() <= 1 {
        return Ok(0);
    }
    let ghost ps = views(parts@);
    parts.pop();
    assert(views(parts@) =~= ps.drop_last());
    let mut pp = chars_of("/");
    append(&mut pp, join(&parts, chars_of("/").as_slice()).as_slice());
    let pps = string_of(pp.as_slice());
    let sel = BlockSelector::from_path(pps.as_str());
    let m = resolve_block(doc, &sel)?;
    let lv: u8 = if level < 1 { 1 } else if level > 6 { 6 } else { level };
    match m {
        BlockNode::Section(sec) => {
            if sec.level < lv {
                Ok(sec.block.line_range.start)
            } else {
                Err(MdtoolError::Validation(string_of(chars_of("Heading level does not nest under the parent section").as_slice())))
            }
        },
        _ => Err(MdtoolError::Validation(string_of(chars_of("Heading level does not nest under the parent section").as_slice()))),
    }
}

/// The start line of the section that would take the new heading (see
/// [`capturing_line`]).
fn find_capturing_line(doc: &DocumentBlock, after: usize, level: u8) -> (r: Option<usize>)
    requires
        1 <= level <= 6,
    ensures
        r == capturing_line(doc@.blocks, after, level as int, 0),
{
    let ghost b = doc@.blocks;
    let mut i: usize = 0;
    while i < doc.block_by_id.len()
        invariant
            i <= b.len(),
            b == doc@.blocks,
            capturing_line(b, after, level as int, 0) == capturing_line(b, after, level as int, i as int),
        decreases b.len() - i,
    {
        let bn = &doc.block_by_id[i];
        assert(bn@ == b[i as int]);
        match bn {
            BlockNode::Section(sec) => {
                if sec.block.line_range.start > after && sec.level < level {
                    return Some(sec.block.line_range.start);
                }
            },
            _ => {},
        }
        i = i + 1;
    }
    None
}

/// Ensure a section exists at `path`: when one does, the document is
/// returned unchanged with an empty diff and no diagnostics; otherwise a
/// heading of the given level (clamped to 1..6), titled with the path's last
/// segment, is placed where it lands under the section of the path's parent
/// (or at the top level), and the section then exists at `path`.
pub fn ensure_section(doc: &DocumentBlock, path: &str, heading_level: u8) -> (r: Result<
    (DocumentBlock, DiffSummary, Vec<Diagnostic>),
    MdtoolError,
>)
    ensures
        ensure_outcome(doc@, path@, heading_level, r),
        r matches Ok((nd, _, _)) ==> resolve_spec(nd@, path_selector(path@)) is Ok,
{
    let path_selector = BlockSelector::from_path(path);
    if resolve_selector(doc, &path_selector).is_ok() {
        return Ok((doc.duplicate(), unchanged_summary(), Vec::new()));
    }
    let pc = chars_of(path);
    let after = ensure_after_line(doc, pc.as_slice(), heading_level)?;
    let title = title_of_path(path);
    let level: u8 = if heading_level < 1 { 1 } else if heading_level > 6 { 6 } else { heading_level };
    let mut text: Vec<char> = Vec::new();
    let mut k: u8 = 0;
    while k < level
        invariant
            k <= level,
            text@ == Seq::new(k as nat, |i: int| '#'),
        decreases level - k,
    {
        text.push('#');
        k = k + 1;
    }
    assert(text@ =~= hashes(heading_level));
    append(&mut text, chars_of(" ").as_slice());
    append(&mut text, title.as_slice());
    append(&mut text, chars_of("\n").as_slice());
    let range = match find_capturing_line(doc, after, level) {
        Some(l) => {
            append(&mut text, chars_of("\n").as_slice());
            LineRange { start: l, end: if l >= 1 { l - 1 } else { 0 } }
        },
        None => {
            let n = doc.line_count();
            if n == 0 {
                LineRange { start: 1, end: 0 }
            } else {
                LineRange { start: if n < usize::MAX { n + 1 } else { n }, end: n }
            }
        },
    };
    let (nd, df, dg) = apply_patch(doc, range, text.as_slice())?;
    if resolve_selector(&nd, &path_selector).is_err() {
        let mut m = chars_of("Section could not be placed at path '");
        append(&mut m, chars_of(path).as_slice());
        append(&mut m, chars_of("'").as_slice());
        return Err(MdtoolError::Validation(string_of(m.as_slice())));
    }
    Ok((nd, df, dg))
}

} // verus!
