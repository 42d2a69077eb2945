//! Batches of edit operations, applied one after another, each on the
//! document that the previous one produced.

use vstd::prelude::*;

use crate::builder::tree_builder::law_built_from_is_well_founded;
use crate::domain::block_node::opt_view;
use crate::domain::document::{acyclic, lemma_wf_acyclic, DocModel, DocumentBlock};
use crate::domain::selectors::{BlockSelector, InsertPosition, SelectorModel};
use crate::error::{diag_views, DiagModel, Diagnostic, ErrorModel, MdtoolError};
use crate::ops::diff::{no_change, unchanged_summary, DiffModel, DiffSummary};
use crate::ops::resolve::{resolve_selector, resolve_spec};
use crate::ops::semantic::{
    add_item_plan, add_list_item, add_row_plan, add_table_row, cell_plan, change_heading_level, level_plan,
    remove_item_plan, remove_list_item, remove_row_plan, remove_table_row, rename_plan, rename_section, toggle_plan,
    toggle_task, update_table_cell,
};
use crate::ops::write::{
    append_child, append_child_plan, delete_block, delete_plan, ensure_outcome, ensure_section, insert_after_plan,
    insert_before_plan, insert_block_after, insert_block_before, move_block, move_outcome, replace_block, replace_plan,
    write_outcome, Plan,
};
use crate::primitives::{BlockId, LineRange};
use crate::text::{append, chars_of, decimal, decimal_chars, string_of, string_views};

verus! {

broadcast use vstd::std_specs::vec::group_vec_axioms;

// ---------------------------------------------------------------------------
// Types
// ---------------------------------------------------------------------------

/// Enumeration of all supported edit operations.
#[derive(Debug, Clone, Copy, PartialEq, Eq, Structural)]
pub enum EditOperation {
    Replace,
    Insert,
    Delete,
    Move,
    EnsureSection,
    RenameSection,
    ChangeHeadingLevel,
    AddTableRow,
    UpdateTableCell,
    RemoveTableRow,
    ToggleTask,
    AddListItem,
    RemoveListItem,
}

/// A single edit operation with its parameters.
#[derive(Debug, Clone)]
pub struct EditOp {
    pub operation: EditOperation,
    pub selector: Option<BlockSelector>,
    pub content: Option<String>,
    pub position: Option<InsertPosition>,
    pub target_parent_id: Option<BlockId>,
    pub index: Option<usize>,
    pub path: Option<String>,
    pub heading_level: Option<u8>,
    pub new_title: Option<String>,
    pub row: Option<Vec<String>>,
    pub row_index: Option<usize>,
    pub col: Option<usize>,
    pub value: Option<String>,
}

/// The result of an edit: the new document, the diff and the diagnostics.
pub type EditResult = Result<(DocumentBlock, DiffSummary, Vec<Diagnostic>), MdtoolError>;

// ---------------------------------------------------------------------------
// Specifications
// ---------------------------------------------------------------------------

/// The selector of an operation; an absent one selects the root.
pub open spec fn op_selector(op: EditOp) -> SelectorModel {
    match op.selector {
        Some(s) => s@,
        None => SelectorModel::empty(),
    }
}

/// A text parameter, empty when absent.
pub open spec fn text_or_empty(o: Option<String>) -> Seq<char> {
    match o {
        Some(s) => s@,
        None => Seq::empty(),
    }
}

/// The row parameter, empty when absent.
pub open spec fn row_or_empty(o: Option<Vec<String>>) -> Seq<Seq<char>> {
    match o {
        Some(r) => string_views(r@),
        None => Seq::empty(),
    }
}

/// The patch of an insert at a position: before the block, as its last
/// child (`Append`), or after it (`After`, an index, or no position).
pub open spec fn insert_plan(d: DocModel, sel: SelectorModel, text: Seq<char>, position: Option<InsertPosition>) -> Plan {
    match position {
        Some(InsertPosition::Before) => insert_before_plan(d, sel, text),
        Some(InsertPosition::Append) => append_child_plan(d, sel, text),
        _ => insert_after_plan(d, sel, text),
    }
}

/// What one operation on a document returns: the outcome of the write it
/// names, with absent parameters defaulted (empty texts, level 2, row and
/// column 0, `Append`, the root as target parent).
pub open spec fn op_step(d: DocModel, op: EditOp, r: EditResult) -> bool {
    let sel = op_selector(op);
    match op.operation {
        EditOperation::Replace => write_outcome(d, replace_plan(d, sel, text_or_empty(op.content)), r),
        EditOperation::Insert => write_outcome(d, insert_plan(d, sel, text_or_empty(op.content), op.position), r),
        EditOperation::Delete => write_outcome(d, delete_plan(d, sel), r),
        EditOperation::Move => move_outcome(
            d,
            sel,
            match op.target_parent_id {
                Some(t) => t,
                None => d.block.id,
            },
            op.index,
            r,
        ),
        EditOperation::EnsureSection => ensure_outcome(
            d,
            text_or_empty(op.path),
            match op.heading_level {
                Some(l) => l,
                None => 2,
            },
            r,
        ),
        EditOperation::RenameSection => write_outcome(d, rename_plan(d, sel, text_or_empty(op.new_title)), r),
        EditOperation::ChangeHeadingLevel => write_outcome(
            d,
            level_plan(
                d,
                sel,
                match op.heading_level {
                    Some(l) => l,
                    None => 2,
                },
            ),
            r,
        ),
        EditOperation::AddTableRow => write_outcome(
            d,
            add_row_plan(
                d,
                sel,
                row_or_empty(op.row),
                match op.position {
                    Some(p) => p,
                    None => InsertPosition::Append,
                },
            ),
            r,
        ),
        EditOperation::UpdateTableCell => write_outcome(
            d,
            cell_plan(
                d,
                sel,
                match op.row_index {
                    Some(i) => i,
                    None => 0,
                },
                match op.col {
                    Some(c) => c,
                    None => 0,
                },
                text_or_empty(op.value),
            ),
            r,
        ),
        EditOperation::RemoveTableRow => write_outcome(
            d,
            remove_row_plan(
                d,
                sel,
                match op.row_index {
                    Some(i) => i,
                    None => 0,
                },
            ),
            r,
        ),
        EditOperation::ToggleTask => write_outcome(d, toggle_plan(d, sel), r),
        EditOperation::AddListItem => write_outcome(d, add_item_plan(d, sel, text_or_empty(op.value), op.index), r),
        EditOperation::RemoveListItem => write_outcome(
            d,
            remove_item_plan(
                d,
                sel,
                match op.index {
                    Some(i) => i,
                    None => 0,
                },
            ),
            r,
        ),
    }
}

/// The document that step `k` of a chain starts from.
pub open spec fn prev_doc(d0: DocModel, rs: Seq<(DocumentBlock, DiffSummary, Vec<Diagnostic>)>, k: int) -> DocModel {
    if k <= 0 {
        d0
    } else {
        rs[k - 1].0@
    }
}

/// Whether `rs` are the successful results of the first `rs.len()`
/// operations, each applied to the document the previous one produced.
pub open spec fn chain_ok(d0: DocModel, ops: Seq<EditOp>, rs: Seq<(DocumentBlock, DiffSummary, Vec<Diagnostic>)>) -> bool {
    &&& rs.len() <= ops.len()
    &&& forall|k: int| 0 <= k < rs.len() ==> #[trigger] op_step(prev_doc(d0, rs, k), ops[k], Ok(rs[k]))
}

/// `x`, capped at the largest `usize`.
pub open spec fn cap(x: int) -> int {
    if x <= usize::MAX { x } else { usize::MAX as int }
}

/// Two diffs merged: changed if either is, their ranges one after the
/// other, their line counts added (capped at the largest `usize`).
pub open spec fn merge_diff(a: DiffModel, b: DiffModel) -> DiffModel {
    DiffModel {
        changed: a.changed || b.changed,
        changed_line_ranges: a.changed_line_ranges + b.changed_line_ranges,
        added_lines: cap(a.added_lines + b.added_lines),
        removed_lines: cap(a.removed_lines + b.removed_lines),
    }
}

/// The diffs of the first `k` results merged, starting from no change.
pub open spec fn merged(rs: Seq<(DocumentBlock, DiffSummary, Vec<Diagnostic>)>, k: int) -> DiffModel
    decreases k,
{
    if k <= 0 {
        no_change()
    } else {
        merge_diff(merged(rs, k - 1), rs[k - 1].1@)
    }
}

/// The diagnostics of the first `k` results, one after the other.
pub open spec fn all_diags(rs: Seq<(DocumentBlock, DiffSummary, Vec<Diagnostic>)>, k: int) -> Seq<DiagModel>
    decreases k,
{
    if k <= 0 {
        Seq::empty()
    } else {
        all_diags(rs, k - 1) + diag_views(rs[k - 1].2@)
    }
}

/// Whether operation `op` has its selector checked before the batch runs:
/// every operation that carries one but `EnsureSection`.
pub open spec fn checked(op: EditOp) -> bool {
    op.selector is Some && op.operation != EditOperation::EnsureSection
}

/// The first of the first `k` operations whose selector is checked and does
/// not resolve, with its error.
pub open spec fn first_bad(d: DocModel, ops: Seq<EditOp>, k: int) -> Option<(int, ErrorModel)>
    decreases k,
{
    if k <= 0 {
        None
    } else {
        match first_bad(d, ops, k - 1) {
            Some(x) => Some(x),
            None => if checked(ops[k - 1]) && resolve_spec(d, ops[k - 1].selector.unwrap()@) is Err {
                Some((k - 1, resolve_spec(d, ops[k - 1].selector.unwrap()@)->Err_0))
            } else {
                None
            },
        }
    }
}

/// The error with which a batch is rejected when the selector of operation
/// `i` fails with `e`.
pub open spec fn rejection(i: int, e: ErrorModel) -> ErrorModel {
    ErrorModel::Transformation("Operation "@ + decimal(i as nat) + " selector resolution failed: "@ + e.message())
}

// ---------------------------------------------------------------------------
// Implementation
// ---------------------------------------------------------------------------

/// What a batch of operations returns: for no operation, the document
/// unchanged with no change and no diagnostics; when a checked selector
/// does not resolve, the rejection of the first such operation; otherwise
/// either the results of all operations, each applied to the document the
/// previous one produced, merged, or the failure of the first one that
/// fails.
pub open spec fn edit_outcome(d: DocModel, ops: Seq<EditOp>, r: EditResult) -> bool {
    &&& ops.len() == 0 ==> (r matches Ok((nd, df, dg)) && nd@ == d && df@ == no_change() && dg@.len() == 0)
    &&& ops.len() > 0 ==> match first_bad(d, ops, ops.len() as int) {
        Some((i, e)) => r matches Err(x) && x@ == rejection(i, e),
        None => match r {
            Ok((nd, df, dg)) => exists|rs: Seq<(DocumentBlock, DiffSummary, Vec<Diagnostic>)>| {
                &&& #[trigger] chain_ok(d, ops, rs)
                &&& rs.len() == ops.len()
                &&& nd@ == rs.last().0@
                &&& df@ == merged(rs, rs.len() as int)
                &&& diag_views(dg@) == all_diags(rs, rs.len() as int)
            },
            Err(x) => exists|rs: Seq<(DocumentBlock, DiffSummary, Vec<Diagnostic>)>| {
                &&& #[trigger] chain_ok(d, ops, rs)
                &&& rs.len() < ops.len()
                &&& op_step(prev_doc(d, rs, rs.len() as int), ops[rs.len() as int], Err(x))
            },
        },
    }
}

/// A successful operation leaves an acyclic document.
proof fn lemma_step_acyclic(d: DocModel, op: EditOp, r: EditResult)
    requires
        acyclic(d),
        op_step(d, op, r),
        r is Ok,
    ensures
        acyclic(r->Ok_0.0@),
{
    let nd = r->Ok_0.0@;
    if op.operation == EditOperation::Move {
        let t = match op.target_parent_id {
            Some(t) => t,
            None => d.block.id,
        };
        let sel = op_selector(op);
        let m = crate::ops::write::resolve_block_spec(d, sel)->Ok_0;
        let d2 = crate::builder::tree_builder::build_spec(
            crate::infrastructure::parser::gfm_doc(crate::ops::write::deleted_text(d, sel)),
        );
        let parent = if t == d.block.id { Some(d.block) } else {
            match crate::domain::document::lookup(d.blocks, t) {
                Some(p) => Some(p.block()),
                None => None,
            }
        };
        let line = crate::ops::write::line_after_deletion(
            crate::ops::write::insert_line_spec(d, parent.unwrap(), op.index),
            crate::ops::write::deletion_range_spec(d, m),
        );
        let (range, text) = (
            crate::ops::write::before_range(line),
            crate::domain::document::text_for_range(d.source_text, crate::ops::diff::content_range(d, m)) + "\n"@,
        );
        law_built_from_is_well_founded(crate::ops::diff::patch_spec(d2.source_text, range, text), nd);
        lemma_wf_acyclic(nd);
    } else if op.operation == EditOperation::EnsureSection {
        let path = text_or_empty(op.path);
        let level = match op.heading_level {
            Some(l) => l,
            None => 2,
        };
        if resolve_spec(d, crate::ops::write::path_selector(path)) is Err {
            if let Ok((range, text)) = crate::ops::write::ensure_plan(d, path, level) {
                law_built_from_is_well_founded(crate::ops::diff::patch_spec(d.source_text, range, text), nd);
                lemma_wf_acyclic(nd);
            }
        }
    } else {
        let sel = op_selector(op);
        let plan = match op.operation {
            EditOperation::Replace => replace_plan(d, sel, text_or_empty(op.content)),
            EditOperation::Insert => insert_plan(d, sel, text_or_empty(op.content), op.position),
            EditOperation::Delete => delete_plan(d, sel),
            EditOperation::RenameSection => rename_plan(d, sel, text_or_empty(op.new_title)),
            EditOperation::ChangeHeadingLevel => level_plan(
                d,
                sel,
                match op.heading_level {
                    Some(l) => l,
                    None => 2,
                },
            ),
            EditOperation::AddTableRow => add_row_plan(
                d,
                sel,
                row_or_empty(op.row),
                match op.position {
                    Some(p) => p,
                    None => InsertPosition::Append,
                },
            ),
            EditOperation::UpdateTableCell => cell_plan(
                d,
                sel,
                match op.row_index {
                    Some(i) => i,
                    None => 0,
                },
                match op.col {
                    Some(c) => c,
                    None => 0,
                },
                text_or_empty(op.value),
            ),
            EditOperation::RemoveTableRow => remove_row_plan(
                d,
                sel,
                match op.row_index {
                    Some(i) => i,
                    None => 0,
                },
            ),
            EditOperation::ToggleTask => toggle_plan(d, sel),
            EditOperation::AddListItem => add_item_plan(d, sel, text_or_empty(op.value), op.index),
            _ => remove_item_plan(
                d,
                sel,
                match op.index {
                    Some(i) => i,
                    None => 0,
                },
            ),
        };
        assert(write_outcome(d, plan, r));
        let (range, text) = plan->Ok_0;
        law_built_from_is_well_founded(crate::ops::diff::patch_spec(d.source_text, range, text), nd);
        lemma_wf_acyclic(nd);
    }
}

/// Apply a single edit operation to the document.
fn apply_single_op(doc: &DocumentBlock, op: &EditOp) -> (r: EditResult)
    requires
        acyclic(doc@),
    ensures
        op_step(doc@, *op, r),
{
    let default_selector = BlockSelector::default();
    let selector = match &op.selector {
        Some(s) => s,
        None => &default_selector,
    };
    let empty = String::new();
    match op.operation {
        EditOperation::Replace => {
            let content = match &op.content {
                Some(c) => c,
                None => &empty,
            };
            replace_block(doc, selector, content.as_str())
        },
        EditOperation::Insert => {
            let content = match &op.content {
                Some(c) => c,
                None => &empty,
            };
            match op.position {
                Some(InsertPosition::Before) => insert_block_before(doc, selector, content.as_str()),
                Some(InsertPosition::Append) => append_child(doc, selector, content.as_str()),
                _ => insert_block_after(doc, selector, content.as_str()),
            }
        },
        EditOperation::Delete => delete_block(doc, selector),
        EditOperation::Move => {
            let target = match op.target_parent_id {
                Some(t) => t,
                None => doc.root_id(),
            };
            move_block(doc, selector, target, op.index)
        },
        EditOperation::EnsureSection => {
            let path = match &op.path {
                Some(p) => p,
                None => &empty,
            };
            let level = match op.heading_level {
                Some(l) => l,
                None => 2,
            };
            ensure_section(doc, path.as_str(), level)
        },
        EditOperation::RenameSection => {
            let title = match &op.new_title {
                Some(t) => t,
                None => &empty,
            };
            rename_section(doc, selector, title.as_str())
        },
        EditOperation::ChangeHeadingLevel => {
            let level = match op.heading_level {
                Some(l) => l,
                None => 2,
            };
            change_heading_level(doc, selector, level)
        },
        EditOperation::AddTableRow => {
            let no_row: Vec<String> = Vec::new();
            let row = match &op.row {
                Some(r) => r,
                None => &no_row,
            };
            let position = match op.position {
                Some(p) => p,
                None => InsertPosition::Append,
            };
            add_table_row(doc, selector, row.as_slice(), position)
        },
        EditOperation::UpdateTableCell => {
            let row = match op.row_index {
                Some(i) => i,
                None => 0,
            };
            let col = match op.col {
                Some(c) => c,
                None => 0,
            };
            let value = match &op.value {
                Some(v) => v,
                None => &empty,
            };
            update_table_cell(doc, selector, row, col, value.as_str())
        },
        EditOperation::RemoveTableRow => {
            let row = match op.row_index {
                Some(i) => i,
                None => 0,
            };
            remove_table_row(doc, selector, row)
        },
        EditOperation::ToggleTask => toggle_task(doc, selector),
        EditOperation::AddListItem => {
            let text = match &op.value {
                Some(v) => v,
                None => &empty,
            };
            add_list_item(doc, selector, text.as_str(), op.index)
        },
        EditOperation::RemoveListItem => {
            let index = match op.index {
                Some(i) => i,
                None => 0,
            };
            remove_list_item(doc, selector, index)
        },
    }
}

proof fn lemma_first_bad_stable(d: DocModel, ops: Seq<EditOp>, k: int, k2: int)
    requires
        k <= k2,
        first_bad(d, ops, k) is Some,
    ensures
        first_bad(d, ops, k2) == first_bad(d, ops, k),
    decreases k2 - k,
{
    if k2 > k {
        lemma_first_bad_stable(d, ops, k, k2 - 1);
    }
}

proof fn lemma_chain_push(
    d0: DocModel,
    ops: Seq<EditOp>,
    rs: Seq<(DocumentBlock, DiffSummary, Vec<Diagnostic>)>,
    g: (DocumentBlock, DiffSummary, Vec<Diagnostic>),
)
    requires
        chain_ok(d0, ops, rs),
        rs.len() < ops.len(),
        op_step(prev_doc(d0, rs, rs.len() as int), ops[rs.len() as int], Ok(g)),
    ensures
        chain_ok(d0, ops, rs.push(g)),
        prev_doc(d0, rs.push(g), rs.len() + 1int) == g.0@,
        merged(rs.push(g), rs.len() + 1int) == merge_diff(merged(rs, rs.len() as int), g.1@),
        all_diags(rs.push(g), rs.len() + 1int) == all_diags(rs, rs.len() as int) + diag_views(g.2@),
{
    let rs2 = rs.push(g);
    assert forall|q: int| 0 <= q < rs2.len() implies #[trigger] op_step(prev_doc(d0, rs2, q), ops[q], Ok(rs2[q])) by {
        if q < rs.len() {
            assert(prev_doc(d0, rs2, q) == prev_doc(d0, rs, q));
            assert(op_step(prev_doc(d0, rs, q), ops[q], Ok(rs[q])));
        }
    }
    lemma_merged_prefix(rs, g, rs.len() as int);
    lemma_diags_prefix(rs, g, rs.len() as int);
}

proof fn lemma_merged_prefix(rs: Seq<(DocumentBlock, DiffSummary, Vec<Diagnostic>)>, g: (DocumentBlock, DiffSummary, Vec<Diagnostic>), k: int)
    requires
        0 <= k <= rs.len(),
    ensures
        merged(rs.push(g), k) == merged(rs, k),
    decreases k,
{
    if k > 0 {
        lemma_merged_prefix(rs, g, k - 1);
    }
}

proof fn lemma_diags_prefix(rs: Seq<(DocumentBlock, DiffSummary, Vec<Diagnostic>)>, g: (DocumentBlock, DiffSummary, Vec<Diagnostic>), k: int)
    requires
        0 <= k <= rs.len(),
    ensures
        all_diags(rs.push(g), k) == all_diags(rs, k),
    decreases k,
{
    if k > 0 {
        lemma_diags_prefix(rs, g, k - 1);
    }
}

fn merge_into(acc: &mut DiffSummary, df: DiffSummary)
    ensures
        final(acc)@ == merge_diff(old(acc)@, df@),
{
    acc.changed = acc.changed || df.changed;
    let mut extra = df.changed_line_ranges;
    acc.changed_line_ranges.append(&mut extra);
    acc.added_lines = add_capped(acc.added_lines, df.added_lines);
    acc.removed_lines = add_capped(acc.removed_lines, df.removed_lines);
}

fn rejection_error(i: usize, e: &MdtoolError) -> (r: MdtoolError)
    ensures
        r@ == rejection(i as int, e@),
{
    let mut v = chars_of("Operation ");
    append(&mut v, decimal_chars(i).as_slice());
    append(&mut v, chars_of(" selector resolution failed: ").as_slice());
    append(&mut v, chars_of(e.message().as_str()).as_slice());
    MdtoolError::Transformation(string_of(v.as_slice()))
}

fn add_capped(a: usize, b: usize) -> (r: usize)
    ensures
        r == cap(a + b),
{
    if a <= usize::MAX - b {
        a + b
    } else {
        usize::MAX
    }
}

/// Apply a batch of edit operations to a document.
///
/// Every selector is checked first (but that of `EnsureSection`, which uses
/// its path): if one fails to resolve, the whole batch is rejected. The
/// operations are then applied one after another, each on the document the
/// previous one produced; the first failure stops the batch.
pub fn edit(doc: &DocumentBlock, operations: &[EditOp]) -> (r: EditResult)
    requires
        acyclic(doc@),
    ensures
        edit_outcome(doc@, operations@, r),
{
    if operations.len() == 0 {
        return Ok((doc.duplicate(), unchanged_summary(), Vec::new()));
    }
    let ghost ops = operations@;
    let mut i: usize = 0;
    while i < operations.len()
        invariant
            i <= ops.len(),
            ops == operations@,
            first_bad(doc@, ops, i as int) is None,
        decreases ops.len() - i,
    {
        let op = &operations[i];
        match &op.selector {
            Some(selector) => {
                if op.operation != EditOperation::EnsureSection {
                    match resolve_selector(doc, selector) {
                        Err(e) => {
                            proof {
                                lemma_first_bad_stable(doc@, ops, i + 1, ops.len() as int);
                            }
                            return Err(rejection_error(i, &e));
                        },
                        Ok(_) => {},
                    }
                }
            },
            None => {},
        }
        i = i + 1;
    }
    let mut current_doc = doc.duplicate();
    let mut acc = unchanged_summary();
    let mut acc_diags: Vec<Diagnostic> = Vec::new();
    let ghost mut rs: Seq<(DocumentBlock, DiffSummary, Vec<Diagnostic>)> = Seq::empty();
    assert(diag_views(acc_diags@) =~= all_diags(rs, 0));
    let mut k: usize = 0;
    while k < operations.len()
        invariant
            k <= ops.len(),
            ops == operations@,
            ops.len() > 0,
            first_bad(doc@, ops, ops.len() as int) is None,
            rs.len() == k,
            chain_ok(doc@, ops, rs),
            current_doc@ == prev_doc(doc@, rs, k as int),
            acyclic(current_doc@),
            acc@ == merged(rs, k as int),
            diag_views(acc_diags@) == all_diags(rs, k as int),
        decreases ops.len() - k,
    {
        let result = apply_single_op(&current_doc, &operations[k]);
        match result {
            Err(e) => {
                assert(op_step(prev_doc(doc@, rs, rs.len() as int), ops[rs.len() as int], Err(e)));
                assert(chain_ok(doc@, ops, rs));
                return Err(e);
            },
            Ok(res) => {
                let ghost g = res;
                proof {
                    lemma_step_acyclic(current_doc@, ops[k as int], Ok(res));
                    lemma_chain_push(doc@, ops, rs, g);
                    rs = rs.push(g);
                }
                let (nd, df, mut dg) = res;
                current_doc = nd;
                merge_into(&mut acc, df);
                let ghost before_diags = diag_views(acc_diags@);
                let ghost new_diags = diag_views(dg@);
                acc_diags.append(&mut dg);
                assert(diag_views(acc_diags@) =~= before_diags + new_diags);
            },
        }
        k = k + 1;
    }
    proof {
        assert(rs.last().0@ == prev_doc(doc@, rs, rs.len() as int));
        assert(chain_ok(doc@, ops, rs));
    }
    Ok((current_doc, acc, acc_diags))
}

} // verus!
