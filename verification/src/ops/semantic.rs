//! Semantic edits: headings, table rows and cells, task checkboxes and list
//! items, each made as a patch of the source lines and a reparse.

use vstd::prelude::*;

use crate::domain::block_node::{rows_view, BlockNode, NodeModel};
use crate::domain::container_blocks::{ListBlock, ListItemBlock, TableBlock};
use crate::domain::document::{acyclic, lookup, text_for_range, DocModel, DocumentBlock};
use crate::domain::section::{HeadingVariant, SectionBlock};
use crate::domain::selectors::{BlockSelector, InsertPosition, SelectorModel};
use crate::error::{Diagnostic, ErrorModel, MdtoolError};
use crate::ops::diff::{block_content_line_range, content_range, DiffSummary};
use crate::ops::read::id_label;
use crate::ops::resolve::resolve_selector;
use crate::ops::write::{before_range, resolve_block_spec, sat_inc, write_outcome, Plan};
use crate::primitives::{BlockId, LineRange};
use crate::text::{
    lemma_first_occurrence,
    append, char_vecs_of, chars_of, decimal, decimal_chars, first_occurrence, join, join_with, matches_at, occurs_at,
    seq_contains, string_of, string_views, views,
};

verus! {

broadcast use vstd::std_specs::vec::group_vec_axioms;

// ---------------------------------------------------------------------------
// Specifications
// ---------------------------------------------------------------------------

/// `a + b`, or the largest `usize` when that would overflow.
pub open spec fn sat_add(a: usize, b: int) -> usize {
    if a + b <= usize::MAX { (a + b) as usize } else { usize::MAX }
}

/// The message for a block of the wrong kind.
pub open spec fn kind_error(expected: Seq<char>, m: NodeModel) -> ErrorModel {
    ErrorModel::Transformation("Expected a "@ + expected + " block, got \""@ + m.kind_name() + "\""@)
}

/// The kinds of block that a semantic edit works on.
pub enum Target {
    Section,
    Table,
    List,
    ListItem,
}

/// Whether a block is of the given kind.
pub open spec fn is_target(m: NodeModel, k: Target) -> bool {
    match k {
        Target::Section => m is Section,
        Target::Table => m is Table,
        Target::List => m is List,
        Target::ListItem => m is ListItem,
    }
}

/// How the error message names a kind.
pub open spec fn target_label(k: Target) -> Seq<char> {
    match k {
        Target::Section => "section"@,
        Target::Table => "table"@,
        Target::List => "list"@,
        Target::ListItem => "list item"@,
    }
}

/// The selected block when it is of the given kind, else the error.
pub open spec fn resolve_kind(d: DocModel, sel: SelectorModel, k: Target) -> Result<NodeModel, ErrorModel> {
    match resolve_block_spec(d, sel) {
        Ok(m) => if is_target(m, k) {
            Ok(m)
        } else {
            Err(kind_error(target_label(k), m))
        },
        Err(e) => Err(e),
    }
}

/// `n` `#` characters.
pub open spec fn hash_run(n: int) -> Seq<char> {
    Seq::new(n as nat, |i: int| '#')
}

/// The single-line range of a block's first line.
pub open spec fn first_line(m: NodeModel) -> LineRange {
    LineRange { start: m.block().line_range.start, end: m.block().line_range.start }
}

/// The patch of `rename_section`: the heading's first line rewritten with
/// the new title in the heading's own style: for an ATX heading, its level's
/// `#` run and the title; for a setext heading, the title alone above the
/// underline it keeps.
pub open spec fn rename_plan(d: DocModel, sel: SelectorModel, title: Seq<char>) -> Plan {
    match resolve_kind(d, sel, Target::Section) {
        Ok(m) => if m->Section_variant == HeadingVariant::Setext {
            Ok((first_line(m), title))
        } else {
            Ok((first_line(m), hash_run(m->Section_level as int) + " "@ + title))
        },
        Err(e) => Err(e),
    }
}

/// The error for a heading level outside 1..6.
pub open spec fn level_error(level: u8) -> ErrorModel {
    ErrorModel::Validation("Heading level must be between 1 and 6, got "@ + decimal(level as nat))
}

/// The patch of `change_heading_level`.
pub open spec fn level_plan(d: DocModel, sel: SelectorModel, level: u8) -> Plan {
    match resolve_kind(d, sel, Target::Section) {
        Ok(m) => if level < 1 || level > 6 {
            Err(level_error(level))
        } else {
            Ok((first_line(m), hash_run(level as int) + " "@ + m->Section_title))
        },
        Err(e) => Err(e),
    }
}

/// A table row line: `| a | b |`.
pub open spec fn row_line(cells: Seq<Seq<char>>) -> Seq<char> {
    "| "@ + join_with(cells, " | "@) + " |"@
}

/// The line before which `add_table_row` inserts: after the last body row
/// for `Append` and `After`, before the first for `Before`, before body row
/// `idx` (clamped) for `Index(idx)`.
pub open spec fn table_insert_line(start: usize, rows: nat, position: InsertPosition) -> usize {
    match position {
        InsertPosition::Append => sat_add(start, 2 + rows as int),
        InsertPosition::After => sat_add(start, 2 + rows as int),
        InsertPosition::Before => sat_add(start, 2),
        InsertPosition::Index(idx) => sat_add(start, 2 + if idx <= rows { idx as int } else { rows as int }),
    }
}

/// The patch of `add_table_row`.
pub open spec fn add_row_plan(d: DocModel, sel: SelectorModel, row: Seq<Seq<char>>, position: InsertPosition) -> Plan {
    match resolve_kind(d, sel, Target::Table) {
        Ok(m) => Ok((
            before_range(table_insert_line(m.block().line_range.start, m->Table_body_rows.len(), position)),
            row_line(row) + "\n"@,
        )),
        Err(e) => Err(e),
    }
}

/// The error for a body row index past the end.
pub open spec fn row_error(row: usize, n: nat) -> ErrorModel {
    ErrorModel::Validation(
        "Row index "@ + decimal(row as nat) + " out of bounds (table has "@ + decimal(n) + " body rows)"@,
    )
}

/// The error for a column index past the end.
pub open spec fn col_error(col: usize, n: nat) -> ErrorModel {
    ErrorModel::Validation("Column index "@ + decimal(col as nat) + " out of bounds (table has "@ + decimal(n)
        + " columns)"@)
}

/// A row with cell `col` set to `value`, padded with empty cells first when
/// it is shorter.
pub open spec fn set_cell(cells: Seq<Seq<char>>, col: int, value: Seq<char>) -> Seq<Seq<char>> {
    let padded = if cells.len() > col {
        cells
    } else {
        cells + Seq::new((col + 1 - cells.len()) as nat, |i: int| Seq::<char>::empty())
    };
    padded.update(col, value)
}

/// The patch of `update_table_cell`.
pub open spec fn cell_plan(d: DocModel, sel: SelectorModel, row: usize, col: usize, value: Seq<char>) -> Plan {
    match resolve_kind(d, sel, Target::Table) {
        Ok(m) => {
            let rows = m->Table_body_rows;
            let header = m->Table_header_row;
            if row >= rows.len() {
                Err(row_error(row, rows.len()))
            } else {
                let n = if header.len() >= rows[row as int].len() { header.len() } else { rows[row as int].len() };
                if col >= n {
                    Err(col_error(col, n))
                } else {
                    let line = sat_add(m.block().line_range.start, 2 + row);
                    Ok((LineRange { start: line, end: line }, row_line(set_cell(rows[row as int], col as int, value))))
                }
            }
        },
        Err(e) => Err(e),
    }
}

/// The patch of `remove_table_row`.
pub open spec fn remove_row_plan(d: DocModel, sel: SelectorModel, row: usize) -> Plan {
    match resolve_kind(d, sel, Target::Table) {
        Ok(m) => {
            let rows = m->Table_body_rows;
            if row >= rows.len() {
                Err(row_error(row, rows.len()))
            } else {
                let line = sat_add(m.block().line_range.start, 2 + row);
                Ok((LineRange { start: line, end: line }, Seq::empty()))
            }
        },
        Err(e) => Err(e),
    }
}

/// `s` with every non-overlapping occurrence of `from` (non-empty), left to
/// right, replaced by `to` (`str::replace`).
pub open spec fn replace_all(s: Seq<char>, from: Seq<char>, to: Seq<char>) -> Seq<char>
    decreases s.len(),
{
    if s.len() == 0 || from.len() == 0 {
        s
    } else if occurs_at(s, from, 0) {
        to + replace_all(s.skip(from.len() as int), from, to)
    } else {
        seq![s[0]] + replace_all(s.drop_first(), from, to)
    }
}

/// `s` with its first occurrence of `from` replaced by `to`.
pub open spec fn replace_first(s: Seq<char>, from: Seq<char>, to: Seq<char>) -> Seq<char> {
    match first_occurrence(s, from) {
        Some(p) => s.take(p) + to + s.skip(p + from.len()),
        None => s,
    }
}

/// The lines of a list item with its checkbox toggled: every checked box
/// (`[x]` or `[X]`) cleared when there is one, else the first `[ ]` checked.
pub open spec fn toggled(src: Seq<char>) -> Seq<char> {
    if seq_contains(src, "[x]"@) || seq_contains(src, "[X]"@) {
        replace_all(replace_all(src, "[x]"@, "[ ]"@), "[X]"@, "[ ]"@)
    } else {
        replace_first(src, "[ ]"@, "[x]"@)
    }
}

/// The line has exactly one checkbox (`[ ]`, `[x]` or `[X]`), at `p`, and
/// it is `[ ]` or `[x]`.
pub open spec fn single_box_at(l: Seq<char>, p: int) -> bool {
    &&& (occurs_at(l, "[ ]"@, p) || occurs_at(l, "[x]"@, p))
    &&& forall|q: int|
        q != p ==> !occurs_at(l, "[ ]"@, q) && !occurs_at(l, "[x]"@, q) && !occurs_at(l, "[X]"@, q)
}

/// Replacing where a pattern does not occur changes nothing.
proof fn lemma_replace_none(s: Seq<char>, f: Seq<char>, g: Seq<char>)
    requires
        f.len() > 0,
        forall|q: int| !occurs_at(s, f, q),
    ensures
        replace_all(s, f, g) == s,
    decreases s.len(),
{
    if s.len() > 0 {
        let d = s.drop_first();
        assert forall|q: int| !occurs_at(d, f, q) by {
            if occurs_at(d, f, q) {
                assert(s.subrange(q + 1, q + 1 + f.len()) =~= d.subrange(q, q + f.len()));
                assert(occurs_at(s, f, q + 1));
            }
        }
        lemma_replace_none(d, f, g);
        assert(seq![s[0]] + d =~= s);
    }
}

/// Replacing a pattern that occurs at `p` only.
proof fn lemma_replace_one(s: Seq<char>, f: Seq<char>, g: Seq<char>, p: int)
    requires
        f.len() > 0,
        occurs_at(s, f, p),
        forall|q: int| q != p ==> !occurs_at(s, f, q),
    ensures
        replace_all(s, f, g) == s.take(p) + g + s.skip(p + f.len()),
    decreases p,
{
    if p == 0 {
        let rest = s.skip(f.len() as int);
        assert forall|q: int| !occurs_at(rest, f, q) by {
            if occurs_at(rest, f, q) {
                assert(s.subrange(q + f.len(), q + f.len() + f.len()) =~= rest.subrange(q, q + f.len()));
                assert(occurs_at(s, f, q + f.len()));
            }
        }
        lemma_replace_none(rest, f, g);
        assert(s.take(0) + g =~= g);
    } else {
        let d = s.drop_first();
        assert(!occurs_at(s, f, 0));
        assert(d.subrange(p - 1, p - 1 + f.len()) =~= s.subrange(p, p + f.len()));
        assert forall|q: int| q != p - 1 implies !occurs_at(d, f, q) by {
            if occurs_at(d, f, q) {
                assert(s.subrange(q + 1, q + 1 + f.len()) =~= d.subrange(q, q + f.len()));
                assert(occurs_at(s, f, q + 1));
            }
        }
        lemma_replace_one(d, f, g, p - 1);
        assert(seq![s[0]] + (d.take(p - 1) + g + d.skip(p - 1 + f.len())) =~= s.take(p) + g + s.skip(p + f.len()));
    }
}

/// Writing a three-character box (`[`, a mark, `]`) at `p` creates no box
/// anywhere else: a box elsewhere in the new line was already in the old.
proof fn lemma_box_written(l: Seq<char>, p: int, g: Seq<char>, pat: Seq<char>, q: int)
    requires
        0 <= p,
        p + 3 <= l.len(),
        g.len() == 3,
        g[0] == '[',
        g[2] == ']',
        g[1] != '[',
        pat.len() == 3,
        pat[0] == '[',
        pat[2] == ']',
        pat[1] != '[',
        q != p,
        occurs_at(l.take(p) + g + l.skip(p + 3), pat, q),
    ensures
        occurs_at(l, pat, q),
{
    let t = l.take(p) + g + l.skip(p + 3);
    assert(t.len() == l.len());
    assert(t.subrange(q, q + 3) == pat);
    assert(t[q] == pat[0] && t[q + 1] == pat[1] && t[q + 2] == pat[2]);
    assert(t[p] == '[' && t[p + 1] == g[1] && t[p + 2] == ']');
    if q + 3 <= p || q >= p + 3 {
        if q + 3 <= p {
            assert(t[q] == l.take(p)[q] && t[q + 1] == l.take(p)[q + 1] && t[q + 2] == l.take(p)[q + 2]);
        } else {
            assert(t[q] == l.skip(p + 3)[q - p - 3]);
            assert(t[q + 1] == l.skip(p + 3)[q + 1 - p - 3]);
            assert(t[q + 2] == l.skip(p + 3)[q + 2 - p - 3]);
        }
        assert(l.subrange(q, q + 3) =~= pat);
    } else if q == p - 2 {
        assert(t[q + 2] == t[p]);
    } else if q == p - 1 {
        assert(t[q + 1] == t[p]);
    } else if q == p + 1 {
        assert(t[q] == t[p + 1]);
    } else {
        assert(q == p + 2);
        assert(t[q] == t[p + 2]);
    }
}

/// Toggling a line with a single checkbox twice gives it back, and toggling
/// it once changes it: `[ ]` becomes `[x]` and back, `[x]` becomes `[ ]`
/// and back.
pub proof fn law_toggle_twice_restores(l: Seq<char>, p: int)
    requires
        single_box_at(l, p),
    ensures
        toggled(l) != l,
        toggled(toggled(l)) == l,
{
    reveal_strlit("[ ]");
    reveal_strlit("[x]");
    reveal_strlit("[X]");
    let u = "[ ]"@;
    let x = "[x]"@;
    let b = "[X]"@;
    assert(!seq_contains(l, b)) by {
        if seq_contains(l, b) {
            let q = choose|q: int| occurs_at(l, b, q);
            if q == p {
                assert(l.subrange(p, p + 3)[1] == 'X');
            }
        }
    }
    if occurs_at(l, u, p) {
        assert(!seq_contains(l, x)) by {
            if seq_contains(l, x) {
                let q = choose|q: int| occurs_at(l, x, q);
                if q == p {
                    assert(l.subrange(p, p + 3)[1] == 'x');
                }
            }
        }
        lemma_first_occurrence(l, u, p);
        let t = l.take(p) + x + l.skip(p + 3);
        assert(toggled(l) == t);
        assert(t.subrange(p, p + 3) =~= x);
        assert(t.subrange(p, p + 3)[1] == t[p + 1]);
        assert(l.subrange(p, p + 3)[1] == l[p + 1]);
        assert(t[p + 1] == 'x' && l[p + 1] == ' ');
        assert(occurs_at(t, x, p));
        assert forall|q: int| q != p implies !occurs_at(t, x, q) by {
            if occurs_at(t, x, q) {
                lemma_box_written(l, p, x, x, q);
            }
        }
        assert forall|q: int| !occurs_at(t, b, q) by {
            if occurs_at(t, b, q) {
                if q == p {
                    assert(t.subrange(p, p + 3)[1] == 'X');
                } else {
                    lemma_box_written(l, p, x, b, q);
                }
            }
        }
        assert(seq_contains(t, x));
        lemma_replace_one(t, x, u, p);
        assert(t.take(p) + u + t.skip(p + 3) =~= l) by {
            assert(l.subrange(p, p + 3) =~= u);
        }
        lemma_replace_none(l, b, u);
    } else {
        assert(occurs_at(l, x, p));
        assert(seq_contains(l, x));
        lemma_replace_one(l, x, u, p);
        let t = l.take(p) + u + l.skip(p + 3);
        assert(t.subrange(p, p + 3) =~= u);
        assert(t.subrange(p, p + 3)[1] == t[p + 1]);
        assert(l.subrange(p, p + 3)[1] == l[p + 1]);
        assert(t[p + 1] == ' ' && l[p + 1] == 'x');
        assert(occurs_at(t, u, p));
        assert forall|q: int| !occurs_at(t, b, q) by {
            if occurs_at(t, b, q) {
                if q == p {
                    assert(t.subrange(p, p + 3)[1] == 'X');
                } else {
                    lemma_box_written(l, p, u, b, q);
                }
            }
        }
        lemma_replace_none(t, b, u);
        assert(toggled(l) == t);
        assert forall|q: int| !occurs_at(t, x, q) by {
            if occurs_at(t, x, q) {
                if q == p {
                    assert(t.subrange(p, p + 3)[1] == 'x');
                } else {
                    lemma_box_written(l, p, u, x, q);
                }
            }
        }
        assert forall|q: int| q != p implies !occurs_at(t, u, q) by {
            if occurs_at(t, u, q) {
                lemma_box_written(l, p, u, u, q);
            }
        }
        assert(!seq_contains(t, x));
        assert(!seq_contains(t, b));
        lemma_first_occurrence(t, u, p);
        assert(t.take(p) + x + t.skip(p + 3) =~= l) by {
            assert(l.subrange(p, p + 3) =~= x);
        }
    }
}

/// The patch of `toggle_task`.
pub open spec fn toggle_plan(d: DocModel, sel: SelectorModel) -> Plan {
    match resolve_kind(d, sel, Target::ListItem) {
        Ok(m) => {
            let src = text_for_range(d.source_text, m.block().line_range);
            if !seq_contains(src, "[x]"@) && !seq_contains(src, "[X]"@) && !seq_contains(src, "[ ]"@) {
                Err(ErrorModel::Transformation("Target list item does not contain a checkbox pattern"@))
            } else {
                Ok((m.block().line_range, toggled(src)))
            }
        },
        Err(e) => Err(e),
    }
}

/// The line of a new list item: `1. text` in an ordered list, else the
/// list's marker, a space and the text.
pub open spec fn item_line(m: NodeModel, text: Seq<char>) -> Seq<char> {
    if m->List_ordered {
        "1. "@ + text
    } else {
        seq![m->List_marker] + " "@ + text
    }
}

/// The line before which `add_list_item` inserts: the list's first line
/// for index 0, the first line of the item at the index, or after the last
/// item (after the list when it has none or the item is missing).
pub open spec fn list_insert_line(d: DocModel, m: NodeModel, index: Option<usize>) -> usize {
    let b = m.block();
    let cs = b.children;
    let last_end = if cs.len() == 0 {
        b.line_range.end
    } else {
        match lookup(d.blocks, cs.last()) {
            Some(c) => c.block().line_range.end,
            None => b.line_range.end,
        }
    };
    match index {
        Some(idx) => if idx == 0 {
            b.line_range.start
        } else if idx >= cs.len() {
            sat_inc(last_end)
        } else {
            match lookup(d.blocks, cs[idx as int]) {
                Some(c) => c.block().line_range.start,
                None => sat_inc(b.line_range.end),
            }
        },
        None => sat_inc(last_end),
    }
}

/// The patch of `add_list_item`.
pub open spec fn add_item_plan(d: DocModel, sel: SelectorModel, text: Seq<char>, index: Option<usize>) -> Plan {
    match resolve_kind(d, sel, Target::List) {
        Ok(m) => Ok((before_range(list_insert_line(d, m, index)), item_line(m, text) + "\n"@)),
        Err(e) => Err(e),
    }
}

/// The error for a list item index past the end.
pub open spec fn item_error(index: usize, n: nat) -> ErrorModel {
    ErrorModel::Validation("List item index "@ + decimal(index as nat) + " out of bounds (list has "@ + decimal(n)
        + " items)"@)
}

/// The patch of `remove_list_item`: the item's lines, with its subtree,
/// removed.
pub open spec fn remove_item_plan(d: DocModel, sel: SelectorModel, index: usize) -> Plan {
    match resolve_kind(d, sel, Target::List) {
        Ok(m) => {
            let cs = m.block().children;
            if index >= cs.len() {
                Err(item_error(index, cs.len()))
            } else {
                match lookup(d.blocks, cs[index as int]) {
                    Some(c) => Ok((content_range(d, c), Seq::empty())),
                    None => Err(ErrorModel::BlockNotFound { selector: id_label(cs[index as int]) }),
                }
            }
        },
        Err(e) => Err(e),
    }
}

// ---------------------------------------------------------------------------
// Helpers
// ---------------------------------------------------------------------------

fn kind_message(expected: &str, bn: &BlockNode) -> (r: MdtoolError)
    ensures
        r@ == kind_error(expected@, bn@),
{
    let mut v = chars_of("Expected a ");
    append(&mut v, chars_of(expected).as_slice());
    append(&mut v, chars_of(" block, got \"").as_slice());
    append(&mut v, chars_of(bn.block_type_name()).as_slice());
    append(&mut v, chars_of("\"").as_slice());
    MdtoolError::Transformation(string_of(v.as_slice()))
}

fn resolve_node<'a>(doc: &'a DocumentBlock, selector: &BlockSelector) -> (r: Result<&'a BlockNode, MdtoolError>)
    ensures
        match r {
            Ok(bn) => resolve_block_spec(doc@, selector@) == Ok::<NodeModel, ErrorModel>(bn@),
            Err(e) => resolve_block_spec(doc@, selector@) == Err::<NodeModel, ErrorModel>(e@),
        },
{
    let block_id = resolve_selector(doc, selector)?;
    match doc.get_block(block_id) {
        Some(bn) => Ok(bn),
        None => {
            let mut s = chars_of("id=BlockId(");
            append(&mut s, decimal_chars(block_id.0 as usize).as_slice());
            append(&mut s, chars_of(")").as_slice());
            Err(MdtoolError::BlockNotFound { selector: string_of(s.as_slice()) })
        },
    }
}

/// Resolve a selector that must match a section.
fn resolve_section<'a>(doc: &'a DocumentBlock, selector: &BlockSelector) -> (r: Result<&'a SectionBlock, MdtoolError>)
    ensures
        match r {
            Ok(s) => resolve_kind(doc@, selector@, Target::Section) == Ok::<NodeModel, ErrorModel>(
                BlockNode::Section(*s)@,
            ),
            Err(e) => resolve_kind(doc@, selector@, Target::Section) == Err::<NodeModel, ErrorModel>(e@),
        },
{
    let bn = resolve_node(doc, selector)?;
    match bn {
        BlockNode::Section(s) => Ok(s),
        _ => Err(kind_message("section", bn)),
    }
}

/// Resolve a selector that must match a table.
fn resolve_table<'a>(doc: &'a DocumentBlock, selector: &BlockSelector) -> (r: Result<&'a TableBlock, MdtoolError>)
    ensures
        match r {
            Ok(t) => resolve_kind(doc@, selector@, Target::Table) == Ok::<NodeModel, ErrorModel>(BlockNode::Table(*t)@),
            Err(e) => resolve_kind(doc@, selector@, Target::Table) == Err::<NodeModel, ErrorModel>(e@),
        },
{
    let bn = resolve_node(doc, selector)?;
    match bn {
        BlockNode::Table(t) => Ok(t),
        _ => Err(kind_message("table", bn)),
    }
}

/// Resolve a selector that must match a list.
fn resolve_list<'a>(doc: &'a DocumentBlock, selector: &BlockSelector) -> (r: Result<&'a ListBlock, MdtoolError>)
    ensures
        match r {
            Ok(l) => resolve_kind(doc@, selector@, Target::List) == Ok::<NodeModel, ErrorModel>(BlockNode::List(*l)@),
            Err(e) => resolve_kind(doc@, selector@, Target::List) == Err::<NodeModel, ErrorModel>(e@),
        },
{
    let bn = resolve_node(doc, selector)?;
    match bn {
        BlockNode::List(l) => Ok(l),
        _ => Err(kind_message("list", bn)),
    }
}

/// Resolve a selector that must match a list item.
fn resolve_list_item<'a>(doc: &'a DocumentBlock, selector: &BlockSelector) -> (r: Result<&'a ListItemBlock, MdtoolError>)
    ensures
        match r {
            Ok(li) => resolve_kind(doc@, selector@, Target::ListItem) == Ok::<NodeModel, ErrorModel>(
                BlockNode::ListItem(*li)@,
            ),
            Err(e) => resolve_kind(doc@, selector@, Target::ListItem) == Err::<NodeModel, ErrorModel>(e@),
        },
{
    let bn = resolve_node(doc, selector)?;
    match bn {
        BlockNode::ListItem(li) => Ok(li),
        _ => Err(kind_message("list item", bn)),
    }
}

fn hashes_then(n: u8, rest: &str) -> (r: Vec<char>)
    ensures
        r@ == hash_run(n as int) + " "@ + rest@,
{
    let mut v: Vec<char> = Vec::new();
    let mut k: u8 = 0;
    while k < n
        invariant
            k <= n,
            v@ == hash_run(k as int),
        decreases n - k,
    {
        v.push('#');
        k = k + 1;
        assert(v@ =~= hash_run(k as int));
    }
    append(&mut v, chars_of(" ").as_slice());
    append(&mut v, chars_of(rest).as_slice());
    v
}

fn patch(doc: &DocumentBlock, range: LineRange, text: &[char]) -> (r: Result<
    (DocumentBlock, DiffSummary, Vec<Diagnostic>),
    MdtoolError,
>)
    ensures
        write_outcome(doc@, Ok((range, text@)), r),
{
    let t = string_of(text);
    let (_, new_doc, diff) = crate::ops::diff::patch_and_reparse(doc, range, t.as_str())?;
    let mut diags: Vec<Diagnostic> = Vec::new();
    let mut i: usize = 0;
    while i < new_doc.diagnostics.len()
        invariant
            i <= new_doc.diagnostics@.len(),
            crate::error::diag_views(diags@) == crate::error::diag_views(new_doc.diagnostics@.take(i as int)),
        decreases new_doc.diagnostics@.len() - i,
    {
        let ghost before = crate::error::diag_views(diags@);
        diags.push(new_doc.diagnostics[i].duplicate());
        assert(crate::error::diag_views(diags@) =~= before.push(new_doc.diagnostics@[i as int]@));
        assert(crate::error::diag_views(new_doc.diagnostics@.take(i + 1)) =~= crate::error::diag_views(
            new_doc.diagnostics@.take(i as int),
        ).push(new_doc.diagnostics@[i as int]@));
        i = i + 1;
    }
    assert(new_doc.diagnostics@.take(new_doc.diagnostics@.len() as int) =~= new_doc.diagnostics@);
    Ok((new_doc, diff, diags))
}

fn add_sat(a: usize, b: usize) -> (r: usize)
    ensures
        r == sat_add(a, b as int),
{
    if a <= usize::MAX - b {
        a + b
    } else {
        usize::MAX
    }
}

fn row_chars(cells: &Vec<Vec<char>>) -> (r: Vec<char>)
    ensures
        r@ == row_line(views(cells@)),
{
    let mut v = chars_of("| ");
    let joined = join(cells, chars_of(" | ").as_slice());
    append(&mut v, joined.as_slice());
    append(&mut v, chars_of(" |").as_slice());
    v
}

// ---------------------------------------------------------------------------
// Public functions
// ---------------------------------------------------------------------------

/// Rename a section's heading title, keeping its level and style: `## Old`
/// becomes `## New`, and a setext heading keeps its underline.
pub fn rename_section(doc: &DocumentBlock, selector: &BlockSelector, new_title: &str) -> (r: Result<
    (DocumentBlock, DiffSummary, Vec<Diagnostic>),
    MdtoolError,
>)
    ensures
        write_outcome(doc@, rename_plan(doc@, selector@, new_title@), r),
{
    let section = resolve_section(doc, selector)?;
    let heading = match section.variant {
        HeadingVariant::Setext => chars_of(new_title),
        HeadingVariant::Atx => hashes_then(section.level, new_title),
    };
    let line = section.block.line_range.start;
    patch(doc, LineRange { start: line, end: line }, heading.as_slice())
}

/// Change a section's heading level (1 to 6): `## Title` becomes
/// `### Title` for level 3.
pub fn change_heading_level(doc: &DocumentBlock, selector: &BlockSelector, new_level: u8) -> (r: Result<
    (DocumentBlock, DiffSummary, Vec<Diagnostic>),
    MdtoolError,
>)
    ensures
        write_outcome(doc@, level_plan(doc@, selector@, new_level), r),
{
    let section = resolve_section(doc, selector)?;
    if new_level < 1 || new_level > 6 {
        let mut v = chars_of("Heading level must be between 1 and 6, got ");
        append(&mut v, decimal_chars(new_level as usize).as_slice());
        return Err(MdtoolError::Validation(string_of(v.as_slice())));
    }
    let heading = hashes_then(new_level, section.title.as_str());
    let line = section.block.line_range.start;
    patch(doc, LineRange { start: line, end: line }, heading.as_slice())
}

/// Add a row (`| a | b |`) to a table at the given position.
pub fn add_table_row(doc: &DocumentBlock, selector: &BlockSelector, row: &[String], position: InsertPosition) -> (r:
    Result<(DocumentBlock, DiffSummary, Vec<Diagnostic>), MdtoolError>)
    ensures
        write_outcome(doc@, add_row_plan(doc@, selector@, string_views(row@), position), r),
{
    let table = resolve_table(doc, selector)?;
    let mut cells: Vec<Vec<char>> = Vec::new();
    let mut i: usize = 0;
    while i < row.len()
        invariant
            i <= row@.len(),
            views(cells@) == string_views(row@.take(i as int)),
        decreases row@.len() - i,
    {
        let ghost before = views(cells@);
        cells.push(chars_of(row[i].as_str()));
        assert(views(cells@) =~= before.push(row@[i as int]@));
        assert(string_views(row@.take(i + 1)) =~= string_views(row@.take(i as int)).push(row@[i as int]@));
        i = i + 1;
    }
    assert(row@.take(row@.len() as int) =~= row@);
    let mut text = row_chars(&cells);
    append(&mut text, chars_of("\n").as_slice());
    let start = table.block.line_range.start;
    let n = table.body_rows.len();
    let insert_line = match position {
        InsertPosition::Append => if n <= usize::MAX - 2 { add_sat(start, n + 2) } else { usize::MAX },
        InsertPosition::After => if n <= usize::MAX - 2 { add_sat(start, n + 2) } else { usize::MAX },
        InsertPosition::Before => add_sat(start, 2),
        InsertPosition::Index(idx) => {
            let k = if idx <= n { idx } else { n };
            if k <= usize::MAX - 2 { add_sat(start, k + 2) } else { usize::MAX }
        },
    };
    let e = if insert_line >= 1 { insert_line - 1 } else { 0 };
    patch(doc, LineRange { start: insert_line, end: e }, text.as_slice())
}

/// Update a single cell of a table: `row` is the 0-based body row index,
/// `col` the 0-based column index.
pub fn update_table_cell(doc: &DocumentBlock, selector: &BlockSelector, row: usize, col: usize, value: &str) -> (r:
    Result<(DocumentBlock, DiffSummary, Vec<Diagnostic>), MdtoolError>)
    ensures
        write_outcome(doc@, cell_plan(doc@, selector@, row, col, value@), r),
{
    let table = resolve_table(doc, selector)?;
    let ghost rows = rows_view(table.body_rows@);
    if row >= table.body_rows.len() {
        let mut v = chars_of("Row index ");
        append(&mut v, decimal_chars(row).as_slice());
        append(&mut v, chars_of(" out of bounds (table has ").as_slice());
        append(&mut v, decimal_chars(table.body_rows.len()).as_slice());
        append(&mut v, chars_of(" body rows)").as_slice());
        return Err(MdtoolError::Validation(string_of(v.as_slice())));
    }
    let current = &table.body_rows[row];
    assert(string_views(current@) == rows[row as int]);
    let num_cols = if table.header_row.len() >= current.len() { table.header_row.len() } else { current.len() };
    if col >= num_cols {
        let mut v = chars_of("Column index ");
        append(&mut v, decimal_chars(col).as_slice());
        append(&mut v, chars_of(" out of bounds (table has ").as_slice());
        append(&mut v, decimal_chars(num_cols).as_slice());
        append(&mut v, chars_of(" columns)").as_slice());
        return Err(MdtoolError::Validation(string_of(v.as_slice())));
    }
    let mut cells = char_vecs_of(current);
    let ghost orig = views(cells@);
    assert(orig =~= orig + Seq::new(0nat, |i: int| Seq::<char>::empty()));
    while cells.len() <= col
        invariant
            orig == string_views(current@),
            cells@.len() >= orig.len(),
            cells@.len() > orig.len() ==> cells@.len() <= col + 1,
            views(cells@) == orig + Seq::new((cells@.len() - orig.len()) as nat, |i: int| Seq::<char>::empty()),
        decreases col + 1 - cells@.len(),
    {
        let ghost before = views(cells@);
        cells.push(Vec::new());
        assert(views(cells@) =~= before.push(Seq::<char>::empty()));
        assert(views(cells@) =~= orig + Seq::new((cells@.len() - orig.len()) as nat, |i: int| Seq::<char>::empty()));
    }
    proof {
        if orig.len() > col {
            assert(cells@.len() == orig.len());
            assert(views(cells@) =~= orig);
        } else {
            assert(cells@.len() == col + 1);
        }
    }
    let ghost padded = views(cells@);
    assert(padded =~= (if orig.len() > col { orig } else { orig + Seq::new(
        (col + 1 - orig.len()) as nat,
        |i: int| Seq::<char>::empty(),
    ) }));
    cells.set(col, chars_of(value));
    assert(views(cells@) =~= set_cell(orig, col as int, value@));
    let text = row_chars(&cells);
    let line = if row <= usize::MAX - 2 { add_sat(table.block.line_range.start, row + 2) } else { usize::MAX };
    patch(doc, LineRange { start: line, end: line }, text.as_slice())
}

/// Remove a body row (0-based index) from a table.
pub fn remove_table_row(doc: &DocumentBlock, selector: &BlockSelector, row: usize) -> (r: Result<
    (DocumentBlock, DiffSummary, Vec<Diagnostic>),
    MdtoolError,
>)
    ensures
        write_outcome(doc@, remove_row_plan(doc@, selector@, row), r),
{
    let table = resolve_table(doc, selector)?;
    if row >= table.body_rows.len() {
        let mut v = chars_of("Row index ");
        append(&mut v, decimal_chars(row).as_slice());
        append(&mut v, chars_of(" out of bounds (table has ").as_slice());
        append(&mut v, decimal_chars(table.body_rows.len()).as_slice());
        append(&mut v, chars_of(" body rows)").as_slice());
        return Err(MdtoolError::Validation(string_of(v.as_slice())));
    }
    let line = if row <= usize::MAX - 2 { add_sat(table.block.line_range.start, row + 2) } else { usize::MAX };
    let empty: Vec<char> = Vec::new();
    patch(doc, LineRange { start: line, end: line }, empty.as_slice())
}

proof fn lemma_replace_step(s: Seq<char>, from: Seq<char>, to: Seq<char>, i: int)
    requires
        from.len() > 0,
        0 <= i < s.len(),
    ensures
        occurs_at(s, from, i) ==> replace_all(s.skip(i), from, to) == to + replace_all(s.skip(i + from.len()), from, to),
        !occurs_at(s, from, i) ==> replace_all(s.skip(i), from, to) == seq![s[i]] + replace_all(s.skip(i + 1), from, to),
{
    let t = s.skip(i);
    assert(t.len() > 0);
    if occurs_at(s, from, i) {
        assert(t.subrange(0, from.len() as int) =~= s.subrange(i, i + from.len()));
        assert(t.skip(from.len() as int) =~= s.skip(i + from.len()));
    } else {
        if occurs_at(t, from, 0) {
            assert(t.subrange(0, from.len() as int) =~= s.subrange(i, i + from.len()));
        }
        assert(t.drop_first() =~= s.skip(i + 1));
    }
}

/// `str::replace` of a non-empty pattern.
fn replace_chars(s: &[char], from: &[char], to: &[char]) -> (r: Vec<char>)
    requires
        from@.len() > 0,
    ensures
        r@ == replace_all(s@, from@, to@),
{
    let mut out: Vec<char> = Vec::new();
    let mut i: usize = 0;
    assert(s@.skip(0) =~= s@);
    while i < s.len()
        invariant
            i <= s@.len(),
            from@.len() > 0,
            replace_all(s@, from@, to@) == out@ + replace_all(s@.skip(i as int), from@, to@),
        decreases s@.len() - i,
    {
        proof {
            lemma_replace_step(s@, from@, to@, i as int);
        }
        if matches_at(s, from, i) {
            let ghost before = out@;
            append(&mut out, to);
            assert(before + (to@ + replace_all(s@.skip(i + from@.len()), from@, to@)) =~= out@ + replace_all(
                s@.skip(i + from@.len()),
                from@,
                to@,
            ));
            i = i + from.len();
        } else {
            let ghost before = out@;
            out.push(s[i]);
            assert(before + (seq![s@[i as int]] + replace_all(s@.skip(i + 1), from@, to@)) =~= out@ + replace_all(
                s@.skip(i + 1),
                from@,
                to@,
            ));
            i = i + 1;
        }
    }
    assert(s@.skip(i as int).len() == 0);
    assert(out@ + replace_all(s@.skip(i as int), from@, to@) =~= out@);
    out
}

/// The characters of `s` with the first occurrence of `from` (at `pos`)
/// replaced by `to`.
fn replace_at(s: &[char], pos: usize, from_len: usize, to: &[char]) -> (r: Vec<char>)
    requires
        pos + from_len <= s@.len(),
    ensures
        r@ == s@.take(pos as int) + to@ + s@.skip(pos + from_len),
{
    let mut v: Vec<char> = Vec::new();
    let mut k: usize = 0;
    while k < pos
        invariant
            k <= pos,
            pos + from_len <= s@.len(),
            v@ == s@.take(k as int),
        decreases pos - k,
    {
        v.push(s[k]);
        k = k + 1;
    }
    append(&mut v, to);
    let n = s.len();
    assert(pos + from_len <= n);
    let mut j: usize = pos + from_len;
    let ghost mid = v@;
    while j < s.len()
        invariant
            pos + from_len <= j <= s@.len(),
            v@ == mid + s@.subrange(pos + from_len, j as int),
        decreases s@.len() - j,
    {
        v.push(s[j]);
        j = j + 1;
    }
    assert(v@ =~= s@.take(pos as int) + to@ + s@.skip(pos + from_len));
    v
}

/// The source lines of a task item with the checkbox toggled.
fn toggle_chars(src: &[char], has_checked: bool) -> (r: Vec<char>)
    requires
        has_checked == (seq_contains(src@, "[x]"@) || seq_contains(src@, "[X]"@)),
    ensures
        r@ == toggled(src@),
{
    let lx = chars_of("[x]");
    let ux = chars_of("[X]");
    let open = chars_of("[ ]");
    proof {
        reveal_strlit("[x]");
        reveal_strlit("[X]");
    }
    if has_checked {
        let a = replace_chars(src, lx.as_slice(), open.as_slice());
        replace_chars(a.as_slice(), ux.as_slice(), open.as_slice())
    } else {
        proof {
            reveal_strlit("[ ]");
        }
        match crate::text::find(src, open.as_slice()) {
            Some(pos) => replace_at(src, pos, 3, lx.as_slice()),
            None => {
                let mut v: Vec<char> = Vec::new();
                append(&mut v, src);
                v
            },
        }
    }
}

/// Toggle a task list item's checkbox: a checked `[x]`/`[X]` is cleared,
/// else the first `[ ]` is checked; the state is read from the source lines.
pub fn toggle_task(doc: &DocumentBlock, selector: &BlockSelector) -> (r: Result<
    (DocumentBlock, DiffSummary, Vec<Diagnostic>),
    MdtoolError,
>)
    ensures
        write_outcome(doc@, toggle_plan(doc@, selector@), r),
{
    let list_item = resolve_list_item(doc, selector)?;
    let line_range = list_item.block.line_range;
    let source_line = doc.source_text_for_range(line_range);
    let src = chars_of(source_line.as_str());
    let lx = chars_of("[x]");
    let ux = chars_of("[X]");
    let open = chars_of("[ ]");
    let has_x = crate::text::contains(src.as_slice(), lx.as_slice());
    let has_big_x = crate::text::contains(src.as_slice(), ux.as_slice());
    let has_checked = has_x || has_big_x;
    let has_unchecked = crate::text::contains(src.as_slice(), open.as_slice());
    if !has_checked && !has_unchecked {
        return Err(
            MdtoolError::Transformation(string_of(chars_of("Target list item does not contain a checkbox pattern").as_slice())),
        );
    }
    let new_line = toggle_chars(src.as_slice(), has_checked);
    patch(doc, line_range, new_line.as_slice())
}

/// Add a list item (`- text`, or `1. text` in an ordered list) to a list,
/// before the item at `index`, or after the last item when `index` is
/// `None` or past the end.
pub fn add_list_item(doc: &DocumentBlock, selector: &BlockSelector, text: &str, index: Option<usize>) -> (r: Result<
    (DocumentBlock, DiffSummary, Vec<Diagnostic>),
    MdtoolError,
>)
    ensures
        write_outcome(doc@, add_item_plan(doc@, selector@, text@, index), r),
{
    let list = resolve_list(doc, selector)?;
    let mut line: Vec<char> = if list.ordered {
        chars_of("1. ")
    } else {
        let mut v: Vec<char> = Vec::new();
        v.push(list.marker);
        append(&mut v, chars_of(" ").as_slice());
        v
    };
    append(&mut line, chars_of(text).as_slice());
    append(&mut line, chars_of("\n").as_slice());
    let list_range = list.block.line_range;
    let children = &list.block.children_ids;
    let n = children.len();
    let last_end = if n == 0 {
        list_range.end
    } else {
        match doc.get_block(children[n - 1]) {
            Some(c) => c.block().line_range.end,
            None => list_range.end,
        }
    };
    let after_last = if last_end < usize::MAX { last_end + 1 } else { last_end };
    let insert_line = match index {
        Some(idx) => {
            if idx == 0 {
                list_range.start
            } else if idx >= n {
                after_last
            } else {
                match doc.get_block(children[idx]) {
                    Some(c) => c.block().line_range.start,
                    None => if list_range.end < usize::MAX { list_range.end + 1 } else { list_range.end },
                }
            }
        },
        None => after_last,
    };
    let e = if insert_line >= 1 { insert_line - 1 } else { 0 };
    patch(doc, LineRange { start: insert_line, end: e }, line.as_slice())
}

/// Remove the list item at `index` (0-based) from a list, with its whole
/// subtree.
pub fn remove_list_item(doc: &DocumentBlock, selector: &BlockSelector, index: usize) -> (r: Result<
    (DocumentBlock, DiffSummary, Vec<Diagnostic>),
    MdtoolError,
>)
    requires
        acyclic(doc@),
    ensures
        write_outcome(doc@, remove_item_plan(doc@, selector@, index), r),
{
    let list = resolve_list(doc, selector)?;
    let children = &list.block.children_ids;
    if index >= children.len() {
        let mut v = chars_of("List item index ");
        append(&mut v, decimal_chars(index).as_slice());
        append(&mut v, chars_of(" out of bounds (list has ").as_slice());
        append(&mut v, decimal_chars(children.len()).as_slice());
        append(&mut v, chars_of(" items)").as_slice());
        return Err(MdtoolError::Validation(string_of(v.as_slice())));
    }
    let child_id = children[index];
    match doc.get_block(child_id) {
        Some(child) => {
            let range = block_content_line_range(doc, child);
            let empty: Vec<char> = Vec::new();
            patch(doc, range, empty.as_slice())
        },
        None => {
            let mut s = chars_of("id=BlockId(");
            append(&mut s, decimal_chars(child_id.0 as usize).as_slice());
            append(&mut s, chars_of(")").as_slice());
            Err(MdtoolError::BlockNotFound { selector: string_of(s.as_slice()) })
        },
    }
}

/// Appending a row to a table puts it right after the table's last body
/// row: the table's lines are its header, its separator and one line per
/// body row, and the new row's line is inserted (nothing is replaced) just
/// below them, that is as many lines below a row added with `Before` as
/// the table has body rows.
pub proof fn law_appended_row_follows_the_last_body_row(d: DocModel, sel: SelectorModel, row: Seq<Seq<char>>)
    requires
        resolve_kind(d, sel, Target::Table) is Ok,
        resolve_kind(d, sel, Target::Table)->Ok_0.block().line_range.start + 2
            + resolve_kind(d, sel, Target::Table)->Ok_0->Table_body_rows.len() <= usize::MAX,
    ensures
        ({
            let m = resolve_kind(d, sel, Target::Table)->Ok_0;
            let last_row_line = m.block().line_range.start + 1 + m->Table_body_rows.len();
            &&& add_row_plan(d, sel, row, InsertPosition::Append) matches Ok((range, text)) && range.start
                == last_row_line + 1 && range.end == last_row_line && text == "| "@ + join_with(row, " | "@) + " |\n"@
            &&& add_row_plan(d, sel, row, InsertPosition::Before) matches Ok((before, _)) && add_row_plan(
                d,
                sel,
                row,
                InsertPosition::Append,
            )->Ok_0.0.start == before.start + m->Table_body_rows.len()
        }),
{
    let m = resolve_kind(d, sel, Target::Table)->Ok_0;
    assert(("| "@ + join_with(row, " | "@) + " |"@) + "\n"@ =~= "| "@ + join_with(row, " | "@) + " |\n"@) by {
        reveal_strlit(" |");
        reveal_strlit("\n");
        reveal_strlit(" |\n");
    }
}

/// Adding a list item without an index appends it after the list's last
/// item: the new line is inserted right after the last line of the last
/// item (of the list itself when it has no item); for a list with items,
/// exactly where the index one past the last item puts it.
pub proof fn law_item_without_index_goes_after_the_last_item(d: DocModel, sel: SelectorModel, text: Seq<char>)
    requires
        resolve_kind(d, sel, Target::List) is Ok,
    ensures
        ({
            let m = resolve_kind(d, sel, Target::List)->Ok_0;
            let cs = m.block().children;
            let plan = add_item_plan(d, sel, text, None);
            &&& plan matches Ok((range, t)) && t == item_line(m, text) + "\n"@ && range.end + 1 == range.start
            &&& cs.len() > 0 ==> (lookup(d.blocks, cs.last()) matches Some(c) ==> (c.block().line_range.end < usize::MAX
                ==> plan->Ok_0.0.start == c.block().line_range.end + 1))
            &&& cs.len() == 0 && m.block().line_range.end < usize::MAX ==> plan->Ok_0.0.start == m.block().line_range.end + 1
            &&& 0 < cs.len() <= usize::MAX ==> plan == add_item_plan(d, sel, text, Some(cs.len() as usize))
        }),
{
}

} // verus!
