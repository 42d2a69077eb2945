//! Block-level operations on the text of a markdown file: the text is
//! parsed into a tree, the operation applied, and the text to write back
//! (unless a dry run) returned with the response. Reading and writing the
//! file itself is the caller's part.

use vstd::prelude::*;

use crate::builder::tree_builder::{build_tree, buildable, built_from, law_built_from_is_well_founded};
use crate::domain::document::{lookup, text_for_range, DocModel, DocumentBlock};
use crate::domain::policy::FilesystemPolicy;
use crate::domain::response::{WriteModel, WriteResponse};
use crate::domain::selectors::{debug_text, selector_debug, BlockSelector, InsertPosition, SelectorModel};
use crate::error::{diag_views, DiagModel, Diagnostic, ErrorModel, MdtoolError};
use crate::infrastructure::policy_guard::{check_write_allowed, read_only_error};
use crate::ops::diff::{compute_diff, diff_spec, DiffSummary};
use crate::ops::edit::{edit_outcome, EditOp, EditResult};
use crate::ops::order::sort_by_key_spec;
use crate::ops::read::{
    block_children_spec, block_text_spec, effective_max, entry_of, is_tree, outline_keys, type_keys, BlockTree,
    OutlineEntry,
};
use crate::ops::resolve::{resolve_selector, resolve_spec};
use crate::ops::search::{search_spec, MatchModel, SearchMatch};
use crate::ops::semantic::{
    add_item_plan, add_row_plan, cell_plan, level_plan, remove_item_plan, remove_row_plan, rename_plan, toggle_plan,
};
use crate::ops::write::{
    append_child_plan, delete_plan, ensure_outcome, insert_after_plan, insert_before_plan, move_outcome, replace_plan,
    write_outcome,
};
use crate::primitives::{BlockId, LineRange};
use crate::processing::normalize::{normalize, normalize_spec, NormalizeOptions};
use crate::processing::validate::{validate, validate_spec};
use crate::text::{chars_eq, chars_of, string_views};

verus! {

/// What a service returns: the response, and the text to write back to
/// the file (none for a dry run).
pub type ServiceResult = Result<(WriteResponse, Option<String>), MdtoolError>;

/// The response to a successful edit.
pub open spec fn response_of(res: (DocumentBlock, DiffSummary, Vec<Diagnostic>)) -> WriteModel {
    WriteModel {
        success: true,
        changed: res.1@.changed,
        diagnostics: diag_views(res.2@),
        diff_summary: Some(res.1@),
        content: None,
    }
}

/// What follows an edit: under a read-only policy, anything but a dry run
/// is refused; else the response, with the new document's text to write
/// back unless it is a dry run.
pub open spec fn written(
    policy: FilesystemPolicy,
    dry_run: bool,
    res: (DocumentBlock, DiffSummary, Vec<Diagnostic>),
    r: ServiceResult,
) -> bool {
    if !dry_run && policy.read_only {
        r matches Err(e) && e@ == read_only_error()
    } else {
        &&& r matches Ok((resp, w))
        &&& resp@ == response_of(res)
        &&& if dry_run {
            w is None
        } else {
            w matches Some(t) && t@ == res.0@.source_text
        }
    }
}

/// What a service returns for an edit `step` on a text: the outcome of the
/// step on the tree built from the text, then `written`; or a parse error
/// when the text does not parse into a tree.
pub open spec fn served(
    text: Seq<char>,
    policy: FilesystemPolicy,
    dry_run: bool,
    step: spec_fn(DocModel, EditResult) -> bool,
    r: ServiceResult,
) -> bool {
    match r {
        Ok(_) => exists|d: DocModel, res: (DocumentBlock, DiffSummary, Vec<Diagnostic>)|
            #![trigger built_from(text, d), written(policy, dry_run, res, r)]
            built_from(text, d) && step(d, Ok(res)) && written(policy, dry_run, res, r),
        Err(e) => {
            ||| e is Parse && !buildable(text)
            ||| exists|d: DocModel| #[trigger] built_from(text, d) && step(d, Err(e))
            ||| exists|d: DocModel, res: (DocumentBlock, DiffSummary, Vec<Diagnostic>)|
                #![trigger built_from(text, d), written(policy, dry_run, res, r)]
                built_from(text, d) && step(d, Ok(res)) && written(policy, dry_run, res, r)
        },
    }
}

/// Block operations under a filesystem policy.
#[derive(Debug, Clone)]
pub struct BlockService {
    pub policy: FilesystemPolicy,
}

impl BlockService {
    /// A service under the given policy.
    pub fn new(policy: FilesystemPolicy) -> (r: Self)
        ensures
            r.policy == policy,
    {
        BlockService { policy }
    }

    /// The tree of a text, well founded.
    fn load_doc(&self, text: &str) -> (r: Result<DocumentBlock, MdtoolError>)
        ensures
            r is Ok <==> buildable(text@),
            r matches Ok(d) ==> built_from(text@, d@) && crate::domain::document::wf(d@) && crate::domain::document::acyclic(d@),
            r matches Err(e) ==> e is Parse,
    {
        let doc = build_tree(text)?;
        proof {
            law_built_from_is_well_founded(text@, doc@);
            crate::domain::document::lemma_wf_acyclic(doc@);
        }
        Ok(doc)
    }

    /// The response to an edit, and the text to write back unless it is a
    /// dry run (refused under a read-only policy).
    pub fn apply_write(&self, result: (DocumentBlock, DiffSummary, Vec<Diagnostic>), dry_run: bool) -> (r: ServiceResult)
        ensures
            written(self.policy, dry_run, result, r),
    {
        let ghost res = result;
        let (new_doc, diff, diags) = result;
        let write = if !dry_run {
            check_write_allowed(&self.policy)?;
            Some(new_doc.source_text)
        } else {
            None
        };
        let changed = diff.changed;
        let r = WriteResponse { success: true, changed, diagnostics: diags, diff_summary: Some(diff), content: None };
        Ok((r, write))
    }

    fn finish(&self, text: &str, doc: &DocumentBlock, result: EditResult, dry_run: bool, Ghost(step): Ghost<
        spec_fn(DocModel, EditResult) -> bool,
    >) -> (r: ServiceResult)
        requires
            built_from(text@, doc@),
            step(doc@, result),
        ensures
            served(text@, self.policy, dry_run, step, r),
    {
        match result {
            Ok(res) => {
                let ghost g = res;
                let r = self.apply_write(res, dry_run);
                proof {
                    assert(built_from(text@, doc@) && step(doc@, Ok(g)) && written(self.policy, dry_run, g, r));
                }
                r
            },
            Err(e) => {
                assert(built_from(text@, doc@) && step(doc@, Err(e)));
                Err(e)
            },
        }
    }

    /// Replace the selected block with `content`.
    pub fn replace_block(&self, text: &str, selector: &BlockSelector, content: &str, dry_run: bool) -> (r: ServiceResult)
        ensures
            served(
                text@,
                self.policy,
                dry_run,
                |d: DocModel, x: EditResult| write_outcome(d, replace_plan(d, selector@, content@), x),
                r,
            ),
    {
        let doc = self.load_doc(text)?;
        let result = crate::ops::write::replace_block(&doc, selector, content);
        self.finish(
            text,
            &doc,
            result,
            dry_run,
            Ghost(|d: DocModel, x: EditResult| write_outcome(d, replace_plan(d, selector@, content@), x)),
        )
    }

    /// Insert `content` at the given position relative to the selected
    /// block: before it, after it, or as its last child (`Append`); an index
    /// inserts after it.
    pub fn insert_block(
        &self,
        text: &str,
        selector: &BlockSelector,
        content: &str,
        position: InsertPosition,
        dry_run: bool,
    ) -> (r: ServiceResult)
        ensures
            served(
                text@,
                self.policy,
                dry_run,
                |d: DocModel, x: EditResult|
                    write_outcome(
                        d,
                        match position {
                            InsertPosition::Before => insert_before_plan(d, selector@, content@),
                            InsertPosition::Append => append_child_plan(d, selector@, content@),
                            _ => insert_after_plan(d, selector@, content@),
                        },
                        x,
                    ),
                r,
            ),
    {
        let doc = self.load_doc(text)?;
        let result = match position {
            InsertPosition::Before => crate::ops::write::insert_block_before(&doc, selector, content),
            InsertPosition::After => crate::ops::write::insert_block_after(&doc, selector, content),
            InsertPosition::Append => crate::ops::write::append_child(&doc, selector, content),
            InsertPosition::Index(_) => crate::ops::write::insert_block_after(&doc, selector, content),
        };
        self.finish(
            text,
            &doc,
            result,
            dry_run,
            Ghost(
                |d: DocModel, x: EditResult|
                    write_outcome(
                        d,
                        match position {
                            InsertPosition::Before => insert_before_plan(d, selector@, content@),
                            InsertPosition::Append => append_child_plan(d, selector@, content@),
                            _ => insert_after_plan(d, selector@, content@),
                        },
                        x,
                    ),
            ),
        )
    }

    /// Delete the selected block.
    pub fn delete_block(&self, text: &str, selector: &BlockSelector, dry_run: bool) -> (r: ServiceResult)
        ensures
            served(text@, self.policy, dry_run, |d: DocModel, x: EditResult| write_outcome(d, delete_plan(d, selector@), x), r),
    {
        let doc = self.load_doc(text)?;
        let result = crate::ops::write::delete_block(&doc, selector);
        self.finish(
            text,
            &doc,
            result,
            dry_run,
            Ghost(|d: DocModel, x: EditResult| write_outcome(d, delete_plan(d, selector@), x)),
        )
    }

    /// Move the selected block under `target_parent_id`.
    pub fn move_block(
        &self,
        text: &str,
        selector: &BlockSelector,
        target_parent_id: BlockId,
        index: Option<usize>,
        dry_run: bool,
    ) -> (r: ServiceResult)
        ensures
            served(
                text@,
                self.policy,
                dry_run,
                |d: DocModel, x: EditResult| move_outcome(d, selector@, target_parent_id, index, x),
                r,
            ),
    {
        let doc = self.load_doc(text)?;
        let result = crate::ops::write::move_block(&doc, selector, target_parent_id, index);
        self.finish(
            text,
            &doc,
            result,
            dry_run,
            Ghost(|d: DocModel, x: EditResult| move_outcome(d, selector@, target_parent_id, index, x)),
        )
    }

    /// Ensure a section exists at `path`.
    pub fn ensure_section(&self, text: &str, path: &str, heading_level: u8, dry_run: bool) -> (r: ServiceResult)
        ensures
            served(text@, self.policy, dry_run, |d: DocModel, x: EditResult| ensure_outcome(d, path@, heading_level, x), r),
    {
        let doc = self.load_doc(text)?;
        let result = crate::ops::write::ensure_section(&doc, path, heading_level);
        self.finish(
            text,
            &doc,
            result,
            dry_run,
            Ghost(|d: DocModel, x: EditResult| ensure_outcome(d, path@, heading_level, x)),
        )
    }

    /// Rename the selected section.
    pub fn rename_section(&self, text: &str, selector: &BlockSelector, new_title: &str, dry_run: bool) -> (r:
        ServiceResult)
        ensures
            served(
                text@,
                self.policy,
                dry_run,
                |d: DocModel, x: EditResult| write_outcome(d, rename_plan(d, selector@, new_title@), x),
                r,
            ),
    {
        let doc = self.load_doc(text)?;
        let result = crate::ops::semantic::rename_section(&doc, selector, new_title);
        self.finish(
            text,
            &doc,
            result,
            dry_run,
            Ghost(|d: DocModel, x: EditResult| write_outcome(d, rename_plan(d, selector@, new_title@), x)),
        )
    }

    /// Change the heading level of the selected section.
    pub fn change_heading_level(&self, text: &str, selector: &BlockSelector, new_level: u8, dry_run: bool) -> (r:
        ServiceResult)
        ensures
            served(
                text@,
                self.policy,
                dry_run,
                |d: DocModel, x: EditResult| write_outcome(d, level_plan(d, selector@, new_level), x),
                r,
            ),
    {
        let doc = self.load_doc(text)?;
        let result = crate::ops::semantic::change_heading_level(&doc, selector, new_level);
        self.finish(
            text,
            &doc,
            result,
            dry_run,
            Ghost(|d: DocModel, x: EditResult| write_outcome(d, level_plan(d, selector@, new_level), x)),
        )
    }

    /// Add a row to the selected table.
    pub fn add_table_row(
        &self,
        text: &str,
        selector: &BlockSelector,
        row: &[String],
        position: InsertPosition,
        dry_run: bool,
    ) -> (r: ServiceResult)
        ensures
            served(
                text@,
                self.policy,
                dry_run,
                |d: DocModel, x: EditResult| write_outcome(d, add_row_plan(d, selector@, string_views(row@), position), x),
                r,
            ),
    {
        let doc = self.load_doc(text)?;
        let result = crate::ops::semantic::add_table_row(&doc, selector, row, position);
        self.finish(
            text,
            &doc,
            result,
            dry_run,
            Ghost(|d: DocModel, x: EditResult| write_outcome(d, add_row_plan(d, selector@, string_views(row@), position), x)),
        )
    }

    /// Update a cell of the selected table.
    pub fn update_table_cell(
        &self,
        text: &str,
        selector: &BlockSelector,
        row: usize,
        col: usize,
        value: &str,
        dry_run: bool,
    ) -> (r: ServiceResult)
        ensures
            served(
                text@,
                self.policy,
                dry_run,
                |d: DocModel, x: EditResult| write_outcome(d, cell_plan(d, selector@, row, col, value@), x),
                r,
            ),
    {
        let doc = self.load_doc(text)?;
        let result = crate::ops::semantic::update_table_cell(&doc, selector, row, col, value);
        self.finish(
            text,
            &doc,
            result,
            dry_run,
            Ghost(|d: DocModel, x: EditResult| write_outcome(d, cell_plan(d, selector@, row, col, value@), x)),
        )
    }

    /// Remove a body row of the selected table.
    pub fn remove_table_row(&self, text: &str, selector: &BlockSelector, row: usize, dry_run: bool) -> (r: ServiceResult)
        ensures
            served(
                text@,
                self.policy,
                dry_run,
                |d: DocModel, x: EditResult| write_outcome(d, remove_row_plan(d, selector@, row), x),
                r,
            ),
    {
        let doc = self.load_doc(text)?;
        let result = crate::ops::semantic::remove_table_row(&doc, selector, row);
        self.finish(
            text,
            &doc,
            result,
            dry_run,
            Ghost(|d: DocModel, x: EditResult| write_outcome(d, remove_row_plan(d, selector@, row), x)),
        )
    }

    /// Toggle the checkbox of the selected task item.
    pub fn toggle_task(&self, text: &str, selector: &BlockSelector, dry_run: bool) -> (r: ServiceResult)
        ensures
            served(text@, self.policy, dry_run, |d: DocModel, x: EditResult| write_outcome(d, toggle_plan(d, selector@), x), r),
    {
        let doc = self.load_doc(text)?;
        let result = crate::ops::semantic::toggle_task(&doc, selector);
        self.finish(
            text,
            &doc,
            result,
            dry_run,
            Ghost(|d: DocModel, x: EditResult| write_outcome(d, toggle_plan(d, selector@), x)),
        )
    }

    /// Add an item to the selected list.
    pub fn add_list_item(
        &self,
        text: &str,
        selector: &BlockSelector,
        item: &str,
        index: Option<usize>,
        dry_run: bool,
    ) -> (r: ServiceResult)
        ensures
            served(
                text@,
                self.policy,
                dry_run,
                |d: DocModel, x: EditResult| write_outcome(d, add_item_plan(d, selector@, item@, index), x),
                r,
            ),
    {
        let doc = self.load_doc(text)?;
        let result = crate::ops::semantic::add_list_item(&doc, selector, item, index);
        self.finish(
            text,
            &doc,
            result,
            dry_run,
            Ghost(|d: DocModel, x: EditResult| write_outcome(d, add_item_plan(d, selector@, item@, index), x)),
        )
    }

    /// Remove an item of the selected list.
    pub fn remove_list_item(&self, text: &str, selector: &BlockSelector, index: usize, dry_run: bool) -> (r: ServiceResult)
        ensures
            served(
                text@,
                self.policy,
                dry_run,
                |d: DocModel, x: EditResult| write_outcome(d, remove_item_plan(d, selector@, index), x),
                r,
            ),
    {
        let doc = self.load_doc(text)?;
        let result = crate::ops::semantic::remove_list_item(&doc, selector, index);
        self.finish(
            text,
            &doc,
            result,
            dry_run,
            Ghost(|d: DocModel, x: EditResult| write_outcome(d, remove_item_plan(d, selector@, index), x)),
        )
    }

    /// Apply a batch of edit operations.
    pub fn edit(&self, text: &str, operations: &[EditOp], dry_run: bool) -> (r: ServiceResult)
        ensures
            served(text@, self.policy, dry_run, |d: DocModel, x: EditResult| edit_outcome(d, operations@, x), r),
    {
        let doc = self.load_doc(text)?;
        let result = crate::ops::edit::edit(&doc, operations);
        self.finish(text, &doc, result, dry_run, Ghost(|d: DocModel, x: EditResult| edit_outcome(d, operations@, x)))
    }

    /// Normalize the text of the document.
    pub fn normalize(&self, text: &str, options: Option<NormalizeOptions>, dry_run: bool) -> (r: ServiceResult)
        ensures
            match r {
                Ok(_) => exists|d: DocModel| #[trigger] built_from(text@, d) && normalized_outcome(
                    self.policy,
                    d.source_text,
                    options,
                    dry_run,
                    r,
                ),
                Err(e) => (e is Parse && !buildable(text@)) || exists|d: DocModel| #[trigger] built_from(text@, d) && normalized_outcome(
                    self.policy,
                    d.source_text,
                    options,
                    dry_run,
                    r,
                ),
            },
    {
        let doc = self.load_doc(text)?;
        let r = normalize_text(&self.policy, doc.source_text.as_str(), options, dry_run);
        assert(built_from(text@, doc@));
        r
    }

    /// Validate the document.
    pub fn validate(&self, text: &str) -> (r: Result<Vec<Diagnostic>, MdtoolError>)
        ensures
            match r {
                Ok(v) => exists|d: DocModel| #[trigger] built_from(text@, d) && diag_views(v@) == validate_spec(d),
                Err(e) => e is Parse && !buildable(text@),
            },
    {
        let doc = self.load_doc(text)?;
        let v = validate(&doc);
        assert(built_from(text@, doc@));
        Ok(v)
    }
}

/// The fields reported for a block that is read: id, type name, line range,
/// and the source text it covers when asked for.
#[derive(Debug)]
pub struct BlockData {
    pub id: BlockId,
    pub block_type: String,
    pub line_range: LineRange,
    pub text: Option<String>,
}

/// The mathematical content of a [`BlockData`].
pub struct BlockDataModel {
    pub id: BlockId,
    pub block_type: Seq<char>,
    pub line_range: LineRange,
    pub text: Option<Seq<char>>,
}

impl View for BlockData {
    type V = BlockDataModel;

    open spec fn view(&self) -> BlockDataModel {
        BlockDataModel {
            id: self.id,
            block_type: self.block_type@,
            line_range: self.line_range,
            text: crate::domain::block_node::opt_view(self.text),
        }
    }
}

/// What reading the selected block gives: the resolved block's data, or,
/// when the resolved id has no entry among the blocks (the root, which an
/// empty selector resolves to), a missing-block error naming the selector.
pub open spec fn block_data_spec(d: DocModel, sel: SelectorModel, include_text: bool) -> Result<
    BlockDataModel,
    ErrorModel,
> {
    match resolve_spec(d, sel) {
        Ok(id) => match lookup(d.blocks, id) {
            Some(m) => Ok(BlockDataModel {
                id,
                block_type: m.kind_name(),
                line_range: m.block().line_range,
                text: if include_text {
                    Some(text_for_range(d.source_text, m.block().line_range))
                } else {
                    None
                },
            }),
            None => Err(ErrorModel::BlockNotFound { selector: selector_debug(sel) }),
        },
        Err(e) => Err(e),
    }
}

/// The outline of a document, as `read_outline` gives it.
pub open spec fn is_outline(d: DocModel, max_depth: u8, include_paths: bool, r: Seq<OutlineEntry>) -> bool {
    let keys = sort_by_key_spec(outline_keys(d.blocks, effective_max(max_depth), d.blocks.len() as int));
    &&& r.len() == keys.len()
    &&& forall|i: int| 0 <= i < keys.len() ==> #[trigger] r[i]@ == entry_of(d.blocks[keys[i].1 as int], include_paths)
}

/// The blocks of a type, as `read_blocks_by_type` gives them.
pub open spec fn is_of_type(d: DocModel, block_type: Seq<char>, r: Seq<BlockId>) -> bool {
    let keys = sort_by_key_spec(type_keys(d.blocks, block_type, d.blocks.len() as int));
    &&& r.len() == keys.len()
    &&& forall|i: int| 0 <= i < keys.len() ==> #[trigger] r[i] == d.blocks[keys[i].1 as int].block().id
}

/// The matches of a search, as `search_blocks` gives them.
pub open spec fn is_search(
    d: DocModel,
    query: Seq<char>,
    sel: Option<SelectorModel>,
    case_sensitive: bool,
    r: Seq<SearchMatch>,
) -> bool {
    &&& r.len() == search_spec(d, query, sel, case_sensitive).len()
    &&& forall|i: int| 0 <= i < r.len() ==> #[trigger] r[i]@ == search_spec(d, query, sel, case_sensitive)[i]
}

impl BlockService {
    /// The outline of a text (sections up to `max_depth`, in document
    /// order), with the diagnostics of its tree.
    pub fn read_outline(&self, text: &str, max_depth: u8, include_paths: bool) -> (r: Result<
        (Vec<OutlineEntry>, Vec<Diagnostic>),
        MdtoolError,
    >)
        ensures
            match r {
                Ok((entries, diags)) => exists|d: DocModel| #[trigger] built_from(text@, d) && is_outline(
                    d,
                    max_depth,
                    include_paths,
                    entries@,
                ) && diag_views(diags@) == d.diagnostics,
                Err(e) => e is Parse && !buildable(text@),
            },
    {
        let doc = self.load_doc(text)?;
        let entries = crate::ops::read::read_outline(&doc, max_depth, include_paths);
        assert(built_from(text@, doc@));
        Ok((entries, doc.diagnostics))
    }

    /// The id, type, line range and (when `include_text`) source text of
    /// the selected block.
    pub fn read_block(&self, text: &str, selector: &BlockSelector, include_text: bool) -> (r: Result<
        BlockData,
        MdtoolError,
    >)
        ensures
            match r {
                Ok(b) => exists|d: DocModel| #[trigger] built_from(text@, d) && block_data_spec(d, selector@, include_text)
                    == Ok::<BlockDataModel, ErrorModel>(b@),
                Err(e) => (e is Parse && !buildable(text@)) || exists|d: DocModel| #[trigger] built_from(text@, d) && block_data_spec(
                    d,
                    selector@,
                    include_text,
                ) == Err::<BlockDataModel, ErrorModel>(e@),
            },
    {
        let doc = self.load_doc(text)?;
        assert(built_from(text@, doc@));
        let block_id = resolve_selector(&doc, selector)?;
        match doc.get_block(block_id) {
            Some(bn) => {
                let range = bn.block().line_range;
                let body = if include_text {
                    Some(doc.source_text_for_range(range))
                } else {
                    None
                };
                Ok(BlockData { id: block_id, block_type: bn.block_type_name().to_string(), line_range: range, text: body })
            },
            None => Err(MdtoolError::BlockNotFound { selector: debug_text(selector) }),
        }
    }

    /// The source text of the selected block.
    pub fn read_block_text(&self, text: &str, selector: &BlockSelector) -> (r: Result<String, MdtoolError>)
        ensures
            match r {
                Ok(t) => exists|d: DocModel| #[trigger] built_from(text@, d) && block_text_spec(d, selector@)
                    == Ok::<Seq<char>, ErrorModel>(t@),
                Err(e) => (e is Parse && !buildable(text@)) || exists|d: DocModel| #[trigger] built_from(text@, d) && block_text_spec(
                    d,
                    selector@,
                ) == Err::<Seq<char>, ErrorModel>(e@),
            },
    {
        let doc = self.load_doc(text)?;
        assert(built_from(text@, doc@));
        crate::ops::read::read_block_text(&doc, selector)
    }

    /// The selected block with its subtree down to `depth` levels (all of
    /// it for a negative depth). The tree carries no source text, whatever
    /// `include_text` says.
    pub fn read_block_tree(&self, text: &str, selector: &BlockSelector, depth: i32, include_text: bool) -> (r: Result<
        BlockTree,
        MdtoolError,
    >)
        ensures
            match r {
                Ok(t) => exists|d: DocModel| #[trigger] built_from(text@, d) && (resolve_spec(d, selector@) matches Ok(
                    id,
                ) && is_tree(d, id, depth, t)),
                Err(e) => (e is Parse && !buildable(text@)) || exists|d: DocModel| #[trigger] built_from(text@, d) && resolve_spec(
                    d,
                    selector@,
                ) == Err::<BlockId, ErrorModel>(e@),
            },
    {
        let doc = self.load_doc(text)?;
        assert(built_from(text@, doc@));
        crate::ops::read::read_block_tree(&doc, selector, depth)
    }

    /// The ordered children of the selected block.
    pub fn read_block_children(&self, text: &str, selector: &BlockSelector) -> (r: Result<
        Vec<BlockId>,
        MdtoolError,
    >)
        ensures
            match r {
                Ok(v) => exists|d: DocModel| #[trigger] built_from(text@, d) && block_children_spec(d, selector@)
                    == Ok::<Seq<BlockId>, ErrorModel>(v@),
                Err(e) => (e is Parse && !buildable(text@)) || exists|d: DocModel| #[trigger] built_from(text@, d) && block_children_spec(
                    d,
                    selector@,
                ) == Err::<Seq<BlockId>, ErrorModel>(e@),
            },
    {
        let doc = self.load_doc(text)?;
        assert(built_from(text@, doc@));
        crate::ops::read::read_block_children(&doc, selector)
    }

    /// The ids of the blocks of a type, in document order.
    pub fn read_blocks_by_type(&self, text: &str, block_type: &str) -> (r: Result<Vec<BlockId>, MdtoolError>)
        ensures
            match r {
                Ok(v) => exists|d: DocModel| #[trigger] built_from(text@, d) && is_of_type(d, block_type@, v@),
                Err(e) => e is Parse && !buildable(text@),
            },
    {
        let doc = self.load_doc(text)?;
        assert(built_from(text@, doc@));
        Ok(crate::ops::read::read_blocks_by_type(&doc, block_type))
    }

    /// The blocks whose text contains `query`, within the selected subtree
    /// or the whole document.
    pub fn search_blocks(&self, text: &str, query: &str, selector: Option<&BlockSelector>, case_sensitive: bool) -> (r:
        Result<Vec<SearchMatch>, MdtoolError>)
        ensures
            match r {
                Ok(v) => exists|d: DocModel| #[trigger] built_from(text@, d) && is_search(
                    d,
                    query@,
                    match selector {
                        Some(s) => Some(s@),
                        None => None,
                    },
                    case_sensitive,
                    v@,
                ),
                Err(e) => e is Parse && !buildable(text@),
            },
    {
        let doc = self.load_doc(text)?;
        assert(built_from(text@, doc@));
        Ok(crate::ops::search::search_blocks(&doc, query, selector, case_sensitive))
    }
}

/// The options that a missing option set stands for: the defaults.
pub open spec fn options_or_default(o: Option<NormalizeOptions>) -> NormalizeOptions {
    match o {
        Some(x) => x,
        None => NormalizeOptions {
            ensure_single_trailing_newline: true,
            trim_trailing_whitespace: true,
            max_consecutive_blank_lines: 1,
            preserve_fenced_code: true,
            normalize_heading_spacing: true,
        },
    }
}

/// What normalizing a text returns: whether it changed, the diff when it
/// did, and the normalized text to write back unless it is a dry run or
/// nothing changed (refused under a read-only policy).
pub open spec fn normalized_outcome(
    policy: FilesystemPolicy,
    text: Seq<char>,
    options: Option<NormalizeOptions>,
    dry_run: bool,
    r: ServiceResult,
) -> bool {
    let n = normalize_spec(text, options_or_default(options));
    let changed = n != text;
    if !dry_run && changed && policy.read_only {
        r matches Err(e) && e@ == read_only_error()
    } else {
        &&& r matches Ok((resp, w))
        &&& resp@ == (WriteModel {
            success: true,
            changed,
            diagnostics: Seq::empty(),
            diff_summary: if changed { Some(diff_spec(text, n)) } else { None },
            content: None,
        })
        &&& if !dry_run && changed {
            w matches Some(t) && t@ == n
        } else {
            w is None
        }
    }
}

/// Normalize a text under a policy: the response, and the normalized text
/// to write back unless it is a dry run or nothing changed.
pub fn normalize_text(policy: &FilesystemPolicy, text: &str, options: Option<NormalizeOptions>, dry_run: bool) -> (r:
    ServiceResult)
    ensures
        normalized_outcome(*policy, text@, options, dry_run, r),
{
    let opts = match options {
        Some(o) => o,
        None => NormalizeOptions::default(),
    };
    let normalized = normalize(text, &opts);
    let a = chars_of(normalized.as_str());
    let b = chars_of(text);
    let changed = !chars_eq(a.as_slice(), b.as_slice());
    let diff_summary = if changed {
        Some(compute_diff(text, normalized.as_str()))
    } else {
        None
    };
    let write = if !dry_run && changed {
        check_write_allowed(policy)?;
        Some(normalized)
    } else {
        None
    };
    let resp = WriteResponse { success: true, changed, diagnostics: Vec::new(), diff_summary, content: None };
    assert(resp@.diagnostics =~= Seq::<DiagModel>::empty());
    Ok((resp, write))
}

} // verus!
