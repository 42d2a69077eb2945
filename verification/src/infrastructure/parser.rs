use vstd::prelude::*;

use crate::domain::block::{Block, BlockModel};
use crate::domain::block_node::{BlockNode, NodeModel};
use crate::domain::container_blocks::{BlockquoteBlock, ListBlock, ListItemBlock, TableBlock};
use crate::domain::document::{line_count_of, line_starts_of, node_views, DocModel, DocumentBlock};
use crate::domain::leaf_blocks::{CodeBlock, FenceBlock, HtmlBlock, ParagraphBlock, ThematicBreakBlock, UnknownBlock};
use crate::domain::section::{HeadingVariant, SectionBlock};
use crate::error::MdtoolError;
use crate::infrastructure::markdown::{gfm_tree, parse_tree, MdKind, MdNode};
use crate::infrastructure::normalizer::{compute_line_starts, preprocess, preprocess_spec};
use crate::primitives::{BlockId, ByteRange, LineRange};
use crate::text::{
    append, char_is_alphanumeric, char_is_whitespace, chars_of, is_alphanumeric, is_whitespace,
    join, join_with, lowercase, lowercase_chars, string_of, string_views, trim, trim_start,
    trim_start_ws, trim_ws, views,
};

verus! {

broadcast use vstd::std_specs::vec::group_vec_axioms;

// ---------------------------------------------------------------------------
// Text content of syntax nodes
// ---------------------------------------------------------------------------

/// The text of a node: inline literals as they are, a newline for each line
/// break, soft or hard, and the text of the children of any other node, in
/// order.
pub open spec fn node_text(n: MdNode) -> Seq<char>
    decreases n, 1nat,
{
    match n.kind {
        MdKind::InlineLiteral { literal } => literal@,
        MdKind::LineBreak | MdKind::SoftBreak => seq!['\n'],
        _ => nodes_text(n.children@, n.children@.len()),
    }
}

/// The text of the first `k` nodes, concatenated.
pub open spec fn nodes_text(ns: Seq<MdNode>, k: nat) -> Seq<char>
    decreases ns, k,
{
    if k == 0 || k > ns.len() {
        Seq::empty()
    } else {
        nodes_text(ns, (k - 1) as nat) + node_text(ns[k - 1])
    }
}

/// The trimmed text of a node.
pub open spec fn text_content(n: MdNode) -> Seq<char> {
    trim_ws(node_text(n))
}

fn collect_text(n: &MdNode, out: &mut Vec<char>)
    ensures
        final(out)@ == old(out)@ + node_text(*n),
    decreases n,
{
    match &n.kind {
        MdKind::InlineLiteral { literal } => {
            let cs = chars_of(literal.as_str());
            append(out, cs.as_slice());
        },
        MdKind::LineBreak | MdKind::SoftBreak => {
            out.push('\n');
            assert(out@ =~= old(out)@ + seq!['\n']);
        },
        _ => {
            let mut i: usize = 0;
            while i < n.children.len()
                invariant
                    i <= n.children@.len(),
                    out@ == old(out)@ + nodes_text(n.children@, i as nat),
                decreases n.children@.len() - i,
            {
                collect_text(&n.children[i], out);
                i = i + 1;
            }
        },
    }
}

/// Extract all text content from a node and its descendants, trimmed.
fn extract_text_content(n: &MdNode) -> (r: Vec<char>)
    ensures
        r@ == text_content(*n),
{
    let mut out: Vec<char> = Vec::new();
    collect_text(n, &mut out);
    assert(out@ =~= node_text(*n));
    trim(out.as_slice())
}

// ---------------------------------------------------------------------------
// Slugs
// ---------------------------------------------------------------------------

/// A character of a slug: kept when alphanumeric, else a dash.
pub open spec fn slug_char(c: char) -> char {
    if is_alphanumeric(c) { c } else { '-' }
}

/// Left-to-right split of a text at a separator: completed parts and the
/// pending tail.
pub open spec fn split_char_state(s: Seq<char>, sep: char) -> (Seq<Seq<char>>, Seq<char>)
    decreases s.len(),
{
    if s.len() == 0 {
        (Seq::empty(), Seq::empty())
    } else {
        let (done, cur) = split_char_state(s.drop_last(), sep);
        if s.last() == sep {
            (done.push(cur), Seq::empty())
        } else {
            (done, cur.push(s.last()))
        }
    }
}

/// The parts of a text between separators (`str::split`).
pub open spec fn split_on(s: Seq<char>, sep: char) -> Seq<Seq<char>> {
    let (done, cur) = split_char_state(s, sep);
    done.push(cur)
}

/// The non-empty parts, in order.
pub open spec fn nonempty_parts(parts: Seq<Seq<char>>) -> Seq<Seq<char>>
    decreases parts.len(),
{
    if parts.len() == 0 {
        parts
    } else if parts.last().len() > 0 {
        nonempty_parts(parts.drop_last()).push(parts.last())
    } else {
        nonempty_parts(parts.drop_last())
    }
}

/// A URL-safe slug of a title: lowercased, every non-alphanumeric character
/// made a dash, and the dash-separated non-empty parts joined with one dash.
pub open spec fn slug_of(title: Seq<char>) -> Seq<char> {
    let mapped = Seq::new(lowercase(title).len(), |i: int| slug_char(lowercase(title)[i]));
    join_with(nonempty_parts(split_on(mapped, '-')), "-"@)
}

/// `slug_of` on characters.
pub fn slug_of_chars(title: &[char]) -> (r: Vec<char>)
    ensures
        r@ == slug_of(title@),
{
    let low = lowercase_chars(title);
    let ghost mapped = Seq::new(lowercase(title@).len(), |i: int| slug_char(lowercase(title@)[i]));
    let mut parts: Vec<Vec<char>> = Vec::new();
    let mut cur: Vec<char> = Vec::new();
    let mut i: usize = 0;
    while i < low.len()
        invariant
            i <= low@.len(),
            low@ == lowercase(title@),
            mapped.len() == low@.len(),
            forall|k: int| 0 <= k < mapped.len() ==> mapped[k] == slug_char(low@[k]),
            forall|k: int| 0 <= k < parts@.len() ==> #[trigger] parts@[k]@.len() > 0,
            (views(parts@), cur@) == ({
                let (d, c) = split_char_state(mapped.take(i as int), '-');
                (nonempty_parts(d), c)
            }),
        decreases low@.len() - i,
    {
        assert(mapped.take(i + 1).drop_last() == mapped.take(i as int));
        let c = low[i];
        let m = if char_is_alphanumeric(c) { c } else { '-' };
        assert(m == mapped[i as int]);
        let ghost (d0, c0) = split_char_state(mapped.take(i as int), '-');
        proof {
            assert(d0.push(c0).drop_last() =~= d0);
            assert(d0.push(c0).last() == c0);
        }
        if m == '-' {
            if cur.len() > 0 {
                let ghost before = views(parts@);
                parts.push(cur);
                assert(views(parts@) =~= before.push(parts@.last()@));
                assert(views(parts@).drop_last() =~= before);
            }
            cur = Vec::new();
        } else {
            cur.push(m);
        }
        i = i + 1;
    }
    assert(mapped.take(low@.len() as int) == mapped);
    let ghost (d, c) = split_char_state(mapped, '-');
    assert(d.push(c).drop_last() =~= d);
    assert(d.push(c).last() == c);
    if cur.len() > 0 {
        let ghost before = views(parts@);
        parts.push(cur);
        assert(views(parts@) =~= before.push(parts@.last()@));
        assert(views(parts@).drop_last() =~= before);
    }
    assert(views(parts@) == nonempty_parts(split_on(mapped, '-')));
    let sep = chars_of("-");
    join(&parts, sep.as_slice())
}

/// Compute a URL-safe slug from a title.
pub fn compute_slug(title: &str) -> (r: String)
    ensures
        r@ == slug_of(title@),
{
    let cs = chars_of(title);
    let s = slug_of_chars(cs.as_slice());
    string_of(s.as_slice())
}


// ---------------------------------------------------------------------------
// Fields of individual blocks
// ---------------------------------------------------------------------------

/// The first word of a text: leading whitespace skipped, then up to the next
/// whitespace (`split_whitespace().next()`, or empty).
pub open spec fn take_word(s: Seq<char>) -> Seq<char>
    decreases s.len(),
{
    if s.len() == 0 || is_whitespace(s[0]) {
        Seq::empty()
    } else {
        seq![s[0]] + take_word(s.skip(1))
    }
}

/// The first whitespace-separated word of a text, or empty.
pub open spec fn first_word(s: Seq<char>) -> Seq<char> {
    take_word(trim_start_ws(s))
}

fn first_word_chars(s: &[char]) -> (r: Vec<char>)
    ensures
        r@ == first_word(s@),
{
    let t = trim_start(s);
    let mut i: usize = 0;
    assert(t@.skip(0) == t@);
    while i < t.len() && !char_is_whitespace(t[i])
        invariant
            i <= t@.len(),
            take_word(t@) == t@.take(i as int) + take_word(t@.skip(i as int)),
        decreases t@.len() - i,
    {
        assert(t@.skip(i as int).skip(1) == t@.skip(i + 1));
        assert(t@.take(i + 1) == t@.take(i as int).push(t@[i as int]));
        i = i + 1;
    }
    let mut out: Vec<char> = Vec::new();
    let mut k: usize = 0;
    while k < i
        invariant
            k <= i <= t@.len(),
            out@ == t@.take(k as int),
        decreases i - k,
    {
        out.push(t[k]);
        k = k + 1;
    }
    out
}

/// `x - 1`, or 0 when `x` is 0.
pub open spec fn sat_dec(x: usize) -> usize {
    if x >= 1 { (x - 1) as usize } else { 0 }
}

/// The block data of a top-level node with the given id: its lines, no
/// parent, no children, and its columns as a byte range.
pub open spec fn child_block(c: MdNode, id: int) -> BlockModel {
    BlockModel {
        id: BlockId(id as u32),
        line_range: LineRange { start: c.start_line, end: c.end_line },
        parent_id: None,
        children: Seq::empty(),
        byte_range: Some(ByteRange { start: sat_dec(c.start_column), end: c.end_column }),
    }
}

fn make_child_block(c: &MdNode, id: u32) -> (b: Block)
    ensures
        b@ == child_block(*c, id as int),
{
    let b = Block {
        id: BlockId(id),
        line_range: LineRange { start: c.start_line, end: c.end_line },
        parent_id: None,
        children_ids: Vec::new(),
        byte_range: Some(ByteRange {
            start: if c.start_column >= 1 { c.start_column - 1 } else { 0 },
            end: c.end_column,
        }),
    };
    assert(b@.children =~= Seq::<BlockId>::empty());
    b
}

// ---------------------------------------------------------------------------
// Tables
// ---------------------------------------------------------------------------

/// The texts of the cells among the first `k` nodes of a row.
pub open spec fn cells_prefix(ns: Seq<MdNode>, k: nat) -> Seq<Seq<char>>
    decreases k,
{
    if k == 0 || k > ns.len() {
        Seq::empty()
    } else {
        let p = cells_prefix(ns, (k - 1) as nat);
        if ns[k - 1].kind is TableCell {
            p.push(text_content(ns[k - 1]))
        } else {
            p
        }
    }
}

/// The texts of the cells of a row.
pub open spec fn row_cells(row: MdNode) -> Seq<Seq<char>> {
    cells_prefix(row.children@, row.children@.len())
}

/// Header row, body rows and whether a header row was seen, after the first
/// `k` children of a table.
pub struct TableAcc {
    pub header: Seq<Seq<char>>,
    pub body: Seq<Seq<Seq<char>>>,
    pub found: bool,
}

/// The rows read from the first `k` children of a table.
pub open spec fn rows_prefix(ns: Seq<MdNode>, k: nat) -> TableAcc
    decreases k,
{
    if k == 0 || k > ns.len() {
        TableAcc { header: Seq::empty(), body: Seq::empty(), found: false }
    } else {
        let p = rows_prefix(ns, (k - 1) as nat);
        match ns[k - 1].kind {
            MdKind::TableRow { header } => if header {
                TableAcc { header: row_cells(ns[k - 1]), body: p.body, found: true }
            } else {
                TableAcc { header: p.header, body: p.body.push(row_cells(ns[k - 1])), found: p.found }
            },
            _ => p,
        }
    }
}

/// The header and body rows of a table; without a header row, the first
/// child's cells become the header and the first body row is dropped.
pub open spec fn table_rows(t: MdNode) -> (Seq<Seq<char>>, Seq<Seq<Seq<char>>>) {
    let acc = rows_prefix(t.children@, t.children@.len());
    if !acc.found && t.children@.len() > 0 {
        (row_cells(t.children@[0]), if acc.body.len() > 0 { acc.body.drop_first() } else { acc.body })
    } else {
        (acc.header, acc.body)
    }
}

fn extract_table_row_cells(row: &MdNode) -> (r: Vec<String>)
    ensures
        string_views(r@) == row_cells(*row),
{
    let mut cells: Vec<String> = Vec::new();
    let mut i: usize = 0;
    while i < row.children.len()
        invariant
            i <= row.children@.len(),
            string_views(cells@) == cells_prefix(row.children@, i as nat),
        decreases row.children@.len() - i,
    {
        let child = &row.children[i];
        if let MdKind::TableCell = child.kind {
            let t = extract_text_content(child);
            let ghost before = string_views(cells@);
            cells.push(string_of(t.as_slice()));
            assert(string_views(cells@) =~= before.push(text_content(row.children@[i as int])));
        }
        i = i + 1;
    }
    cells
}

pub fn copy_alignments(v: &Vec<crate::domain::container_blocks::Alignment>) -> (r: Vec<crate::domain::container_blocks::Alignment>)
    ensures
        r@ == v@,
{
    let mut out = Vec::new();
    let mut i: usize = 0;
    while i < v.len()
        invariant
            i <= v.len(),
            out@ == v@.take(i as int),
        decreases v.len() - i,
    {
        out.push(v[i]);
        i = i + 1;
    }
    assert(out@ =~= v@);
    out
}

fn extract_table(t: &MdNode, block: Block, alignments: &Vec<crate::domain::container_blocks::Alignment>) -> (r: TableBlock)
    ensures
        r.block == block,
        r.alignments@ == alignments@,
        string_views(r.header_row@) == table_rows(*t).0,
        crate::domain::block_node::rows_view(r.body_rows@) == table_rows(*t).1,
{
    let mut header_row: Vec<String> = Vec::new();
    let mut body_rows: Vec<Vec<String>> = Vec::new();
    let mut found_header = false;
    let mut i: usize = 0;
    while i < t.children.len()
        invariant
            i <= t.children@.len(),
            string_views(header_row@) == rows_prefix(t.children@, i as nat).header,
            crate::domain::block_node::rows_view(body_rows@) == rows_prefix(t.children@, i as nat).body,
            found_header == rows_prefix(t.children@, i as nat).found,
        decreases t.children@.len() - i,
    {
        let child = &t.children[i];
        if let MdKind::TableRow { header } = &child.kind {
            if *header {
                header_row = extract_table_row_cells(child);
                found_header = true;
            } else {
                let ghost before = crate::domain::block_node::rows_view(body_rows@);
                body_rows.push(extract_table_row_cells(child));
                assert(crate::domain::block_node::rows_view(body_rows@) =~= before.push(row_cells(t.children@[i as int])));
            }
        }
        i = i + 1;
    }
    if !found_header {
        if t.children.len() > 0 {
            header_row = extract_table_row_cells(&t.children[0]);
            if body_rows.len() > 0 {
                let ghost before = crate::domain::block_node::rows_view(body_rows@);
                body_rows.remove(0);
                assert(crate::domain::block_node::rows_view(body_rows@) =~= before.drop_first());
            }
        }
    }
    TableBlock { block, alignments: copy_alignments(alignments), header_row, body_rows }
}

// ---------------------------------------------------------------------------
// Lists
// ---------------------------------------------------------------------------

/// The checkbox state of a list item: `Some(checked)` for a task list item
/// (which the syntax tree marks as a task item in place of a plain item),
/// `None` for a plain item.
pub open spec fn task_state(item: MdNode) -> Option<bool> {
    match item.kind {
        MdKind::TaskItem { checked } => Some(checked),
        _ => None,
    }
}

/// The list item made of the `idx`-th child of a list, with the given id.
pub open spec fn item_model(item: MdNode, id: int, ordered: bool, idx: int) -> NodeModel {
    NodeModel::ListItem {
        block: BlockModel {
            id: BlockId(id as u32),
            line_range: LineRange { start: item.start_line, end: item.end_line },
            parent_id: None,
            children: Seq::empty(),
            byte_range: None,
        },
        checked: task_state(item),
        order: if ordered { Some((idx + 1) as u32) } else { None },
    }
}

/// A list with the given id followed by its items, numbered after it.
pub open spec fn list_models(c: MdNode, id: int, ordered: bool, tight: bool) -> Seq<NodeModel> {
    let n = c.children@.len();
    let b = child_block(c, id);
    seq![NodeModel::List {
        block: BlockModel { children: Seq::new(n, |i: int| BlockId((id + 1 + i) as u32)), ..b },
        ordered,
        marker: if ordered { '.' } else { '-' },
        tight,
    }] + Seq::new(n, |i: int| item_model(c.children@[i], id + 1 + i, ordered, i))
}

fn extract_list(c: &MdNode, block: Block, ordered: bool, tight: bool) -> (r: Vec<BlockNode>)
    requires
        block@ == child_block(*c, block.id.0 as int),
        block.id.0 + c.children@.len() <= u32::MAX,
    ensures
        node_views(r@) == list_models(*c, block.id.0 as int, ordered, tight),
{
    let id = block.id.0;
    let n = c.children.len();
    let mut item_ids: Vec<BlockId> = Vec::new();
    let mut items: Vec<BlockNode> = Vec::new();
    let ghost list_id = id as int;
    let mut i: usize = 0;
    while i < n
        invariant
            i <= n == c.children@.len(),
            id + n <= u32::MAX,
            list_id == id as int,
            block.id.0 == id,
            item_ids@ == Seq::new(i as nat, |k: int| BlockId((list_id + 1 + k) as u32)),
            node_views(items@) == Seq::new(i as nat, |k: int| item_model(c.children@[k], list_id + 1 + k, ordered, k)),
        decreases n - i,
    {
        let item = &c.children[i];
        let item_id = BlockId(id + 1 + i as u32);
        let checked: Option<bool> = match &item.kind {
            MdKind::TaskItem { checked: ch } => Some(*ch),
            _ => None,
        };
        let order = if ordered { Some(i as u32 + 1) } else { None };
        let item_block = Block {
            id: item_id,
            line_range: LineRange { start: item.start_line, end: item.end_line },
            parent_id: None,
            children_ids: Vec::new(),
            byte_range: None,
        };
        let node = BlockNode::ListItem(ListItemBlock { block: item_block, checked, order });
        let ghost before = node_views(items@);
        items.push(node);
        proof {
            assert(node@.block().children =~= Seq::<BlockId>::empty());
            assert((i as u32) as int == i as int);
            assert(item_id == BlockId((list_id + 1 + i) as u32));
            assert(checked == task_state(c.children@[i as int]));
            assert(order == (if ordered { Some((i + 1) as u32) } else { None }));
            assert(node@ == item_model(c.children@[i as int], list_id + 1 + i, ordered, i as int));
            assert(node_views(items@) =~= before.push(node@));
            assert(node_views(items@) =~= Seq::new((i + 1) as nat, |k: int| item_model(c.children@[k], list_id + 1 + k, ordered, k)));
        }
        item_ids.push(item_id);
        assert(item_ids@ =~= Seq::new((i + 1) as nat, |k: int| BlockId((list_id + 1 + k) as u32)));
        i = i + 1;
    }
    let mut list_block = block;
    list_block.children_ids = item_ids;
    let list_node = BlockNode::List(ListBlock { block: list_block, ordered, marker: if ordered { '.' } else { '-' }, tight });
    let mut all: Vec<BlockNode> = Vec::new();
    all.push(list_node);
    let ghost first = node_views(all@);
    let ghost item_views = node_views(items@);
    let mut rest = items;
    all.append(&mut rest);
    proof {
        assert(node_views(all@) =~= first + item_views);
        assert(node_views(all@) =~= list_models(*c, list_id, ordered, tight));
    }
    all
}
// ---------------------------------------------------------------------------
// Blocks and documents
// ---------------------------------------------------------------------------

/// The blocks made of one top-level node with the given id, or `None` when
/// the node yields no block (an unrecognized node without text or children).
pub open spec fn extract_spec(c: MdNode, id: int) -> Option<Seq<NodeModel>> {
    let b = child_block(c, id);
    match c.kind {
        MdKind::Heading { level, setext } => Some(seq![NodeModel::Section {
            block: b,
            level,
            title: text_content(c),
            slug: slug_of(text_content(c)),
            path: Seq::empty(),
            ordinal: 0,
            variant: if setext { HeadingVariant::Setext } else { HeadingVariant::Atx },
        }]),
        MdKind::Paragraph => Some(seq![NodeModel::Paragraph { block: b, raw_text: text_content(c) }]),
        MdKind::CodeBlock { fenced, info, literal } => if fenced {
            Some(seq![NodeModel::Fence {
                block: b,
                language: if info@.len() == 0 { None } else { Some(first_word(info@)) },
                info_string: if info@.len() == 0 { None } else { Some(info@) },
                raw_text: literal@,
            }])
        } else {
            Some(seq![NodeModel::CodeBlock { block: b, raw_text: literal@ }])
        },
        MdKind::List { ordered, tight } => Some(list_models(c, id, ordered, tight)),
        MdKind::BlockQuote => Some(seq![NodeModel::Blockquote { block: b }]),
        MdKind::ThematicBreak => Some(seq![NodeModel::ThematicBreak { block: b }]),
        MdKind::HtmlBlock { literal } => Some(seq![NodeModel::Html { block: b, raw_text: literal@ }]),
        MdKind::Table { alignments } => Some(seq![NodeModel::Table {
            block: b,
            alignments: alignments@,
            header_row: table_rows(c).0,
            body_rows: table_rows(c).1,
        }]),
        _ => if text_content(c).len() == 0 && c.children@.len() == 0 {
            None
        } else {
            Some(seq![NodeModel::Unknown { block: b, raw_text: text_content(c) }])
        },
    }
}

/// How many ids a top-level node takes: one, plus one per item of a list.
pub open spec fn ids_used(c: MdNode) -> int {
    1 + if c.kind is List { c.children@.len() as int } else { 0 }
}

/// The blocks of the first `k` top-level nodes, and the next free id.
pub open spec fn extract_all(ns: Seq<MdNode>, k: nat) -> (Seq<NodeModel>, int)
    decreases k,
{
    if k == 0 || k > ns.len() {
        (Seq::empty(), 1)
    } else {
        let (bs, next) = extract_all(ns, (k - 1) as nat);
        let c = ns[k - 1];
        match extract_spec(c, next) {
            Some(more) => (bs + more, next + ids_used(c)),
            None => (bs, next + ids_used(c)),
        }
    }
}

/// Whether only lists have children among flat blocks, each such list
/// followed by a list item.
pub open spec fn only_lists_have_children(b: Seq<NodeModel>) -> bool {
    forall|i: int| #![trigger b[i]] 0 <= i < b.len() && b[i].block().children.len() > 0 ==> (b[i] is List && i + 1 < b.len()
        && b[i + 1] is ListItem)
}

/// Whether every list item among flat blocks comes after some list.
pub open spec fn items_follow_lists(b: Seq<NodeModel>) -> bool {
    forall|i: int| #![trigger b[i]] 0 <= i < b.len() && b[i] is ListItem ==> exists|q: int| 0 <= q < i && #[trigger] b[q] is List
}

/// The blocks of the top-level nodes have children only when they are lists
/// with items, the items coming right after; and every item comes after a
/// list.
pub proof fn lemma_extract_all_children(ns: Seq<MdNode>, k: nat)
    ensures
        only_lists_have_children(extract_all(ns, k).0),
        items_follow_lists(extract_all(ns, k).0),
    decreases k,
{
    if k == 0 || k > ns.len() {
    } else {
        lemma_extract_all_children(ns, (k - 1) as nat);
        let (bs, next) = extract_all(ns, (k - 1) as nat);
        let c = ns[k - 1];
        match extract_spec(c, next) {
            Some(more) => {
                let all = bs + more;
                assert(extract_all(ns, k).0 == all);
                assert forall|i: int| #![trigger all[i]] 0 <= i < all.len() && all[i] is ListItem implies exists|q: int|
                    0 <= q < i && #[trigger] all[q] is List by {
                    if i < bs.len() {
                        assert(all[i] == bs[i]);
                        let q = choose|q: int| 0 <= q < i && #[trigger] bs[q] is List;
                        assert(all[q] == bs[q]);
                    } else {
                        let q = bs.len() as int;
                        assert(all[i] == more[i - q]);
                        assert(all[q] == more[0]);
                    }
                }
                assert forall|i: int| #![trigger all[i]] 0 <= i < all.len() && all[i].block().children.len() > 0 implies (all[i] is List
                    && i + 1 < all.len() && all[i + 1] is ListItem) by {
                    if i < bs.len() {
                        assert(all[i] == bs[i]);
                        assert(bs[i].block().children.len() > 0);
                        assert(all[i + 1] == bs[i + 1]);
                    } else {
                        let q = i - bs.len();
                        assert(all[i] == more[q]);
                        if c.kind is List {
                            let n = c.children@.len();
                            if q == 0 {
                                assert(n > 0);
                                assert(all[i + 1] == more[1]);
                            }
                        }
                    }
                }
            },
            None => {},
        }
    }
}

proof fn lemma_extract_all_monotone(ns: Seq<MdNode>, j: nat, k: nat)
    requires
        j <= k <= ns.len(),
    ensures
        1 <= extract_all(ns, j).1 <= extract_all(ns, k).1,
    decreases k,
{
    if k > j {
        lemma_extract_all_monotone(ns, j, (k - 1) as nat);
    } else if k > 0 {
        lemma_extract_all_monotone(ns, 0, (k - 1) as nat);
    }
}

fn extract_block(c: &MdNode, id: u32) -> (r: Option<Vec<BlockNode>>)
    requires
        id + ids_used(*c) <= u32::MAX + 1,
    ensures
        match r {
            Some(v) => extract_spec(*c, id as int) == Some(node_views(v@)),
            None => extract_spec(*c, id as int) is None,
        },
{
    let block = make_child_block(c, id);
    let ghost b = child_block(*c, id as int);
    match &c.kind {
        MdKind::Heading { level, setext } => {
            let title = extract_text_content(c);
            let slug = slug_of_chars(title.as_slice());
            let variant = if *setext { HeadingVariant::Setext } else { HeadingVariant::Atx };
            let node = BlockNode::Section(SectionBlock {
                block,
                level: *level,
                title: string_of(title.as_slice()),
                slug: string_of(slug.as_slice()),
                path: String::new(),
                ordinal: 0,
                variant,
            });
            Some(single(node))
        },
        MdKind::Paragraph => {
            let t = extract_text_content(c);
            Some(single(BlockNode::Paragraph(ParagraphBlock { block, raw_text: string_of(t.as_slice()) })))
        },
        MdKind::CodeBlock { fenced, info, literal } => {
            if *fenced {
                let (language, info_string) = if info.as_str().is_empty() {
                    (None, None)
                } else {
                    let ic = chars_of(info.as_str());
                    let w = first_word_chars(ic.as_slice());
                    (Some(string_of(w.as_slice())), Some(info.clone()))
                };
                Some(single(BlockNode::Fence(FenceBlock { block, language, info_string, raw_text: literal.clone() })))
            } else {
                Some(single(BlockNode::CodeBlock(CodeBlock { block, raw_text: literal.clone() })))
            }
        },
        MdKind::List { ordered, tight } => {
            Some(extract_list(c, block, *ordered, *tight))
        },
        MdKind::BlockQuote => Some(single(BlockNode::Blockquote(BlockquoteBlock { block }))),
        MdKind::ThematicBreak => Some(single(BlockNode::ThematicBreak(ThematicBreakBlock { block }))),
        MdKind::HtmlBlock { literal } => {
            Some(single(BlockNode::Html(HtmlBlock { block, raw_text: literal.clone() })))
        },
        MdKind::Table { alignments } => {
            let t = extract_table(c, block, alignments);
            Some(single(BlockNode::Table(t)))
        },
        _ => {
            let t = extract_text_content(c);
            if t.len() == 0 && c.children.len() == 0 {
                None
            } else {
                Some(single(BlockNode::Unknown(UnknownBlock { block, raw_text: string_of(t.as_slice()) })))
            }
        },
    }
}

fn single(n: BlockNode) -> (r: Vec<BlockNode>)
    ensures
        node_views(r@) == seq![n@],
{
    let mut v = Vec::new();
    v.push(n);
    assert(node_views(v@) =~= seq![n@]);
    v
}

/// The number of lines recorded for a whole document: at least one.
pub open spec fn doc_line_count(text: Seq<char>) -> usize {
    if text.len() == 0 || lines_of_len(text) == 0 { 1 } else { lines_of_len(text) as usize }
}

/// The number of lines of a text.
pub open spec fn lines_of_len(text: Seq<char>) -> nat {
    crate::text::lines_of(text).len()
}

/// The document made of a parsed syntax tree: `source` is the text given,
/// `normalized` the text that was parsed.
pub open spec fn doc_from_tree_spec(source: Seq<char>, normalized: Seq<char>, tree: MdNode) -> DocModel {
    let blocks = extract_all(tree.children@, tree.children@.len()).0;
    DocModel {
        block: BlockModel {
            id: BlockId(0),
            line_range: LineRange { start: 1, end: doc_line_count(normalized) },
            parent_id: None,
            children: Seq::new(blocks.len(), |i: int| blocks[i].block().id),
            byte_range: if normalized.len() == 0 {
                None
            } else {
                Some(ByteRange { start: 0, end: vstd::utf8::encode_utf8(normalized).len() as usize })
            },
        },
        source_text: normalized,
        normalized_text: source,
        line_starts: line_starts_of(vstd::utf8::encode_utf8(normalized)),
        blocks,
        diagnostics: Seq::empty(),
        metadata: Seq::empty(),
    }
}

/// Whether the ids that a tree needs fit in `u32`.
pub open spec fn ids_fit(tree: MdNode) -> bool {
    extract_all(tree.children@, tree.children@.len()).1 <= u32::MAX + 1
}

/// Builds the flat document of a parsed syntax tree: one block per top-level
/// node (and one per list item), numbered from 1 in document order.
pub fn document_from_tree(source: &str, normalized: String, tree: &MdNode) -> (r: Result<DocumentBlock, MdtoolError>)
    ensures
        r is Ok <==> ids_fit(*tree),
        r matches Ok(d) ==> d@ == doc_from_tree_spec(source@, normalized@, *tree),
        r matches Err(e) ==> e is Parse,
{
    let ghost ns = tree.children@;
    let mut blocks: Vec<BlockNode> = Vec::new();
    let mut next_id: u64 = 1;
    let mut i: usize = 0;
    while i < tree.children.len()
        invariant
            i <= ns.len(),
            ns == tree.children@,
            node_views(blocks@) == extract_all(ns, i as nat).0,
            next_id == extract_all(ns, i as nat).1,
            next_id <= u32::MAX + 1,
        decreases ns.len() - i,
    {
        let c = &tree.children[i];
        proof {
            lemma_extract_all_monotone(ns, 0, i as nat);
        }
        let is_list = match &c.kind { MdKind::List { .. } => true, _ => false };
        if is_list && c.children.len() > u32::MAX as usize {
            proof {
                lemma_extract_all_monotone(ns, (i + 1) as nat, ns.len());
            }
            return Err(MdtoolError::Parse(string_of(chars_of("too many blocks").as_slice())));
        }
        let used: u64 = 1 + if is_list { c.children.len() as u64 } else { 0 };
        if next_id + used > u32::MAX as u64 + 1 {
            proof {
                lemma_extract_all_monotone(ns, (i + 1) as nat, ns.len());
            }
            return Err(MdtoolError::Parse(string_of(chars_of("too many blocks").as_slice())));
        }
        let id = next_id as u32;
        let extracted = extract_block(c, id);
        proof {
            assert(ns.take(i + 1)[i as int] == c);
        }
        match extracted {
            Some(nodes) => {
                let ghost before = node_views(blocks@);
                let mut nodes = nodes;
                append_nodes(&mut blocks, &mut nodes);
                assert(node_views(blocks@) == before + extract_spec(*c, id as int)->0);
            },
            None => {},
        }
        next_id = next_id + used;
        i = i + 1;
    }
    let ghost bs = node_views(blocks@);
    let mut root_children: Vec<BlockId> = Vec::new();
    let mut k: usize = 0;
    while k < blocks.len()
        invariant
            k <= blocks@.len(),
            bs == node_views(blocks@),
            root_children@ == Seq::new(k as nat, |j: int| bs[j].block().id),
        decreases blocks@.len() - k,
    {
        root_children.push(blocks[k].block().id);
        assert(root_children@ =~= Seq::new((k + 1) as nat, |j: int| bs[j].block().id));
        k = k + 1;
    }
    let line_starts = compute_line_starts(normalized.as_str());
    let nlines = crate::text::lines_of_str(normalized.as_str()).len();
    let empty = normalized.as_str().is_empty();
    let doc_lines = if empty || nlines == 0 { 1 } else { nlines };
    let root_block = Block {
        id: BlockId(0),
        line_range: LineRange { start: 1, end: doc_lines },
        parent_id: None,
        children_ids: root_children,
        byte_range: if empty { None } else { Some(ByteRange { start: 0, end: normalized.as_str().len() }) },
    };
    let doc = DocumentBlock {
        block: root_block,
        source_text: normalized,
        normalized_text: string_of(chars_of(source).as_slice()),
        line_starts,
        block_by_id: blocks,
        diagnostics: Vec::new(),
        metadata: Vec::new(),
    };
    proof {
        assert(doc@.diagnostics =~= Seq::<crate::error::DiagModel>::empty());
        assert(doc@.metadata =~= Seq::<(Seq<char>, Seq<char>)>::empty());
        assert(doc@.block == doc_from_tree_spec(source@, doc@.source_text, *tree).block);
    }
    Ok(doc)
}

/// Moves all nodes of `src`, in order, onto the end of `dst`.
fn append_nodes(dst: &mut Vec<BlockNode>, src: &mut Vec<BlockNode>)
    ensures
        node_views(final(dst)@) == node_views(old(dst)@) + node_views(old(src)@),
{
    let ghost s = node_views(src@);
    let ghost d = node_views(dst@);
    dst.append(src);
    assert(node_views(dst@) =~= d + s);
}

/// The flat document that comrak's parse of a text gives: its syntax tree
/// taken from the normalized text.
pub open spec fn gfm_doc(source: Seq<char>) -> DocModel {
    doc_from_tree_spec(source, preprocess_spec(source), gfm_tree(preprocess_spec(source)))
}

/// Parse raw markdown text into a DocumentBlock with a flat block list: the
/// text is normalized (BOM, CRLF), parsed with comrak, and its top-level
/// nodes made blocks by [`document_from_tree`].
pub fn parse_markdown(source: &str) -> (r: Result<DocumentBlock, MdtoolError>)
    ensures
        r is Ok <==> ids_fit(gfm_tree(preprocess_spec(source@))),
        r matches Ok(d) ==> d@ == gfm_doc(source@),
        r matches Err(e) ==> e is Parse,
{
    let normalized = preprocess(source);
    let tree = parse_tree(normalized.as_str());
    document_from_tree(source, normalized, &tree)
}

} // verus!
