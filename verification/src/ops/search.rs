//! Text search across the blocks of a document: every block (optionally in
//! the subtree of a selected block) whose text contains the query.

use vstd::prelude::*;

use crate::domain::block_node::{BlockNode, NodeModel};
use crate::domain::document::{acyclic, child_rank, lemma_acyclic_kids, lookup, node_of, text_for_range, DocModel, DocumentBlock};
use crate::domain::selectors::{BlockSelector, SelectorModel};
use crate::ops::resolve::{resolve_selector, resolve_spec};
use crate::ops::traverse::{walk, walk_spec};
use crate::primitives::BlockId;
use crate::text::{
    append, char_vecs_of, chars_of, contains, join, join_with, lines_of, lowercase, lowercase_chars, seq_contains,
    split_lines, string_of, string_views, views,
};

verus! {

broadcast use vstd::std_specs::vec::group_vec_axioms;

// ---------------------------------------------------------------------------
// Public types
// ---------------------------------------------------------------------------

/// A single search hit: the block that matched and a snippet of the
/// matching text (the first line that contains the query).
#[derive(Debug, Clone)]
pub struct SearchMatch {
    pub block_id: BlockId,
    pub matched_text: String,
}

/// The mathematical content of a [`SearchMatch`].
pub struct MatchModel {
    pub block_id: BlockId,
    pub matched_text: Seq<char>,
}

impl View for SearchMatch {
    type V = MatchModel;

    open spec fn view(&self) -> MatchModel {
        MatchModel { block_id: self.block_id, matched_text: self.matched_text@ }
    }
}

// ---------------------------------------------------------------------------
// Specifications
// ---------------------------------------------------------------------------

/// The cells of a table row joined with ` | `.
pub open spec fn row_text(row: Seq<Seq<char>>) -> Seq<char> {
    join_with(row, " | "@)
}

/// The text of a table: its header row and body rows, one per line.
pub open spec fn table_text(header: Seq<Seq<char>>, rows: Seq<Seq<Seq<char>>>) -> Seq<char> {
    join_with(seq![row_text(header)] + Seq::new(rows.len(), |i: int| row_text(rows[i])), "\n"@)
}

/// The searchable text of a block that is not a list item: its raw text,
/// title, table cells or label and destination, else its source lines.
pub open spec fn leaf_text(d: DocModel, m: NodeModel) -> Seq<char> {
    match m {
        NodeModel::Paragraph { raw_text, .. } => raw_text,
        NodeModel::Section { title, .. } => title,
        NodeModel::Fence { raw_text, .. } => raw_text,
        NodeModel::Table { header_row, body_rows, .. } => table_text(header_row, body_rows),
        NodeModel::Html { raw_text, .. } => raw_text,
        NodeModel::CodeBlock { raw_text, .. } => raw_text,
        NodeModel::Unknown { raw_text, .. } => raw_text,
        NodeModel::LinkRefDef { label, destination, .. } => label + " "@ + destination,
        _ => text_for_range(d.source_text, m.block().line_range),
    }
}

/// The searchable text of the block with the given id: a list item's is
/// the texts of its children joined with a space; a missing block has none.
pub open spec fn text_of_id(d: DocModel, id: BlockId) -> Seq<char>
    decreases child_rank(d)(id), 1int, 0int,
{
    match lookup(d.blocks, id) {
        Some(m) => match m {
            NodeModel::ListItem { block, .. } => join_with(kid_texts(d, id, block.children, block.children.len() as int), " "@),
            _ => leaf_text(d, m),
        },
        None => Seq::empty(),
    }
}

/// The texts of the children among the first `k` of `cs` that exist. A
/// child that does not rank below its block (see [`child_rank`]) would
/// close a cycle and is left out (in an acyclic tree there is none).
pub open spec fn kid_texts(d: DocModel, id: BlockId, cs: Seq<BlockId>, k: int) -> Seq<Seq<char>>
    decreases child_rank(d)(id), 0int, k,
{
    if k <= 0 {
        Seq::empty()
    } else {
        let prev = kid_texts(d, id, cs, k - 1);
        let c = cs[k - 1];
        if lookup(d.blocks, c) is Some && child_rank(d)(c) < child_rank(d)(id) {
            prev.push(text_of_id(d, c))
        } else {
            prev
        }
    }
}

/// Whether `needle` occurs in `haystack`, ignoring case (by lowercasing
/// both) unless `case_sensitive`.
pub open spec fn contains_q(haystack: Seq<char>, needle: Seq<char>, case_sensitive: bool) -> bool {
    if case_sensitive {
        seq_contains(haystack, needle)
    } else {
        seq_contains(lowercase(haystack), lowercase(needle))
    }
}

/// The UTF-8 width of a character.
pub open spec fn char_width(c: char) -> nat {
    vstd::utf8::encode_scalar(c as u32).len()
}

/// The longest prefix of a text whose UTF-8 encoding fits in `limit` bytes.
pub open spec fn prefix_within(s: Seq<char>, limit: nat) -> Seq<char>
    decreases s.len(),
{
    if s.len() == 0 || char_width(s[0]) > limit {
        Seq::empty()
    } else {
        seq![s[0]] + prefix_within(s.drop_first(), (limit - char_width(s[0])) as nat)
    }
}

/// The first of the given lines that contains the query, if any.
pub open spec fn first_line_with(lines: Seq<Seq<char>>, q: Seq<char>, case_sensitive: bool) -> Option<Seq<char>>
    decreases lines.len(),
{
    if lines.len() == 0 {
        None
    } else if contains_q(lines[0], q, case_sensitive) {
        Some(lines[0])
    } else {
        first_line_with(lines.drop_first(), q, case_sensitive)
    }
}

/// The snippet shown for a match: the first line that contains the query;
/// failing that, the text itself, cut to its first 200 bytes and marked
/// with `...` when it is longer.
pub open spec fn snippet(text: Seq<char>, q: Seq<char>, case_sensitive: bool) -> Seq<char> {
    match first_line_with(lines_of(text), q, case_sensitive) {
        Some(l) => l,
        None => if vstd::utf8::encode_utf8(text).len() > 200 {
            prefix_within(text, 200) + "..."@
        } else {
            text
        },
    }
}

/// The hits among the first `k` of the walked ids.
pub open spec fn hits(d: DocModel, ids: Seq<BlockId>, q: Seq<char>, case_sensitive: bool, k: int) -> Seq<MatchModel>
    decreases k,
{
    if k <= 0 {
        Seq::empty()
    } else {
        let prev = hits(d, ids, q, case_sensitive, k - 1);
        let id = ids[k - 1];
        let text = text_of_id(d, id);
        if lookup(d.blocks, id) is Some && contains_q(text, q, case_sensitive) {
            prev.push(MatchModel { block_id: id, matched_text: snippet(text, q, case_sensitive) })
        } else {
            prev
        }
    }
}

/// The result of a search: nothing for an empty query or a selector that
/// does not resolve; else the hits over the pre-order walk of the scope
/// (the selected block, or the root).
pub open spec fn search_spec(d: DocModel, q: Seq<char>, sel: Option<SelectorModel>, case_sensitive: bool) -> Seq<
    MatchModel,
> {
    let scope = match sel {
        Some(s) => resolve_spec(d, s),
        None => Ok(d.block.id),
    };
    if q.len() == 0 {
        Seq::empty()
    } else {
        match scope {
            Ok(root) => {
                let ids = walk_spec(d, root);
                hits(d, ids, q, case_sensitive, ids.len() as int)
            },
            Err(_) => Seq::empty(),
        }
    }
}

// ---------------------------------------------------------------------------
// Implementation
// ---------------------------------------------------------------------------

fn row_chars(row: &Vec<String>) -> (r: Vec<char>)
    ensures
        r@ == row_text(string_views(row@)),
{
    let cells = char_vecs_of(row);
    let sep = chars_of(" | ");
    join(&cells, sep.as_slice())
}

/// The searchable text of the block with the given id.
fn extract_text(doc: &DocumentBlock, id: BlockId) -> (r: Vec<char>)
    requires
        acyclic(doc@),
    ensures
        r@ == text_of_id(doc@, id),
    decreases child_rank(doc@)(id),
{
    let ghost d = doc@;
    match doc.get_block(id) {
        None => Vec::new(),
        Some(bn) => match bn {
            BlockNode::Paragraph(p) => chars_of(p.raw_text.as_str()),
            BlockNode::Section(s) => chars_of(s.title.as_str()),
            BlockNode::Fence(f) => chars_of(f.raw_text.as_str()),
            BlockNode::Html(h) => chars_of(h.raw_text.as_str()),
            BlockNode::CodeBlock(c) => chars_of(c.raw_text.as_str()),
            BlockNode::Unknown(u) => chars_of(u.raw_text.as_str()),
            BlockNode::LinkRefDef(l) => {
                let mut out = chars_of(l.label.as_str());
                append(&mut out, chars_of(" ").as_slice());
                append(&mut out, chars_of(l.destination.as_str()).as_slice());
                out
            },
            BlockNode::Table(t) => {
                let mut parts: Vec<Vec<char>> = Vec::new();
                parts.push(row_chars(&t.header_row));
                let ghost rows = crate::domain::block_node::rows_view(t.body_rows@);
                let mut i: usize = 0;
                while i < t.body_rows.len()
                    invariant
                        i <= t.body_rows@.len(),
                        rows == crate::domain::block_node::rows_view(t.body_rows@),
                        views(parts@) == seq![row_text(string_views(t.header_row@))] + Seq::new(
                            i as nat,
                            |j: int| row_text(rows[j]),
                        ),
                    decreases t.body_rows@.len() - i,
                {
                    let ghost before = views(parts@);
                    assert(rows[i as int] == string_views(t.body_rows@[i as int]@));
                    parts.push(row_chars(&t.body_rows[i]));
                    assert(views(parts@) =~= before.push(row_text(rows[i as int])));
                    assert(views(parts@) =~= seq![row_text(string_views(t.header_row@))] + Seq::new(
                        (i + 1) as nat,
                        |j: int| row_text(rows[j]),
                    ));
                    i = i + 1;
                }
                let sep = chars_of("\n");
                join(&parts, sep.as_slice())
            },
            BlockNode::ListItem(li) => {
                let cs = &li.block.children_ids;
                let ghost csv = cs@;
                proof {
                    lemma_acyclic_kids(d, id);
                    assert forall|k: int| 0 <= k < csv.len() implies #[trigger] child_rank(d)(csv[k]) < child_rank(d)(id) by {
                        assert(bn@.block().children[k] == csv[k]);
                    }
                }
                let mut texts: Vec<Vec<char>> = Vec::new();
                let mut i: usize = 0;
                while i < cs.len()
                    invariant
                        d == doc@,
                        acyclic(d),
                        csv == cs@,
                        forall|k: int| 0 <= k < csv.len() ==> #[trigger] child_rank(d)(csv[k]) < child_rank(d)(id),
                        i <= csv.len(),
                        views(texts@) == kid_texts(d, id, csv, i as int),
                    decreases csv.len() - i,
                {
                    let c = cs[i];
                    if doc.get_block(c).is_some() {
                        let ghost before = views(texts@);
                        let t = extract_text(doc, c);
                        texts.push(t);
                        assert(views(texts@) =~= before.push(text_of_id(d, c)));
                    }
                    i = i + 1;
                }
                let sep = chars_of(" ");
                join(&texts, sep.as_slice())
            },
            _ => {
                let s = doc.source_text_for_range(bn.block().line_range);
                chars_of(s.as_str())
            },
        },
    }
}

/// Whether `haystack` contains `needle`, respecting case sensitivity.
fn contains_query(haystack: &[char], needle: &[char], case_sensitive: bool) -> (r: bool)
    ensures
        r == contains_q(haystack@, needle@, case_sensitive),
{
    if case_sensitive {
        contains(haystack, needle)
    } else {
        let h = lowercase_chars(haystack);
        let n = lowercase_chars(needle);
        contains(h.as_slice(), n.as_slice())
    }
}

/// The UTF-8 width of a character.
fn width_of(c: char) -> (r: usize)
    ensures
        r == char_width(c),
{
    let v = c as u32;
    if v < 0x80 {
        1
    } else if v < 0x800 {
        2
    } else if v < 0x10000 {
        3
    } else {
        4
    }
}

proof fn lemma_prefix_step(s: Seq<char>, limit: nat, i: int, used: nat)
    requires
        0 <= i < s.len(),
        prefix_within(s, limit) == s.take(i) + prefix_within(s.skip(i), (limit - used) as nat),
        used <= limit,
        used + char_width(s[i]) <= limit,
    ensures
        prefix_within(s, limit) == s.take(i + 1) + prefix_within(s.skip(i + 1), (limit - used - char_width(s[i])) as nat),
{
    assert(s.skip(i).drop_first() =~= s.skip(i + 1));
    assert(s.skip(i)[0] == s[i]);
    assert(s.take(i + 1) =~= s.take(i) + seq![s[i]]);
}

/// The first 200 bytes' worth of a text (whole characters, so that the
/// cut never falls inside one), then `...`.
fn truncate_bytes(text: &[char]) -> (r: Vec<char>)
    ensures
        r@ == prefix_within(text@, 200) + "..."@,
{
    let mut used: usize = 0;
    let mut i: usize = 0;
    assert(text@.skip(0) =~= text@);
    while i < text.len() && used + width_of(text[i]) <= 200
        invariant
            i <= text.len(),
            used <= 200,
            prefix_within(text@, 200) == text@.take(i as int) + prefix_within(text@.skip(i as int), (200 - used) as nat),
        decreases text.len() - i,
    {
        proof {
            lemma_prefix_step(text@, 200, i as int, used as nat);
        }
        used = used + width_of(text[i]);
        i = i + 1;
    }
    proof {
        if i < text.len() {
            assert(text@.skip(i as int)[0] == text@[i as int]);
        }
        assert(prefix_within(text@.skip(i as int), (200 - used) as nat) =~= Seq::<char>::empty());
    }
    let mut out: Vec<char> = Vec::new();
    let mut k: usize = 0;
    while k < i
        invariant
            k <= i <= text.len(),
            out@ == text@.take(k as int),
        decreases i - k,
    {
        out.push(text[k]);
        k = k + 1;
    }
    append(&mut out, chars_of("...").as_slice());
    out
}

/// The byte length of a text.
fn utf8_len(text: &[char]) -> (r: usize)
    ensures
        r == vstd::utf8::encode_utf8(text@).len(),
{
    let s = string_of(text);
    s.as_str().as_bytes().len()
}

/// The first line of `text` that contains `query`; failing that, the text
/// itself, cut to its first 200 bytes (on a character boundary) when longer.
fn first_matching_line(text: &[char], query: &[char], case_sensitive: bool) -> (r: Vec<char>)
    ensures
        r@ == snippet(text@, query@, case_sensitive),
{
    let lines = split_lines(text);
    let ghost ls = lines_of(text@);
    let mut i: usize = 0;
    assert(ls.skip(0) =~= ls);
    while i < lines.len()
        invariant
            i <= lines@.len(),
            views(lines@) == ls,
            ls == lines_of(text@),
            first_line_with(ls, query@, case_sensitive) == first_line_with(ls.skip(i as int), query@, case_sensitive),
        decreases lines@.len() - i,
    {
        assert(ls.skip(i as int)[0] == lines@[i as int]@);
        assert(ls.skip(i as int).drop_first() =~= ls.skip(i + 1));
        if contains_query(lines[i].as_slice(), query, case_sensitive) {
            assert(first_line_with(ls.skip(i as int), query@, case_sensitive) == Some(ls.skip(i as int)[0]));
            let mut out: Vec<char> = Vec::new();
            append(&mut out, lines[i].as_slice());
            assert(out@ =~= lines@[i as int]@);
            return out;
        }
        i = i + 1;
    }
    assert(ls.skip(i as int).len() == 0);
    if utf8_len(text) > 200 {
        truncate_bytes(text)
    } else {
        let mut out: Vec<char> = Vec::new();
        append(&mut out, text);
        out
    }
}

/// Search for `query` across the blocks of `doc`: the subtree of the block
/// that `selector` resolves to (nothing when it does not resolve), or the
/// whole document; case-insensitive unless `case_sensitive`. The matches come
/// in pre-order (document order of the walk).
pub fn search_blocks(doc: &DocumentBlock, query: &str, selector: Option<&BlockSelector>, case_sensitive: bool) -> (r: Vec<
    SearchMatch,
>)
    requires
        acyclic(doc@),
    ensures
        ({
            let sel = match selector {
                Some(s) => Some(s@),
                None => None,
            };
            &&& r@.len() == search_spec(doc@, query@, sel, case_sensitive).len()
            &&& forall|i: int| 0 <= i < r@.len() ==> #[trigger] r@[i]@ == search_spec(doc@, query@, sel, case_sensitive)[i]
        }),
{
    let ghost d = doc@;
    let q = chars_of(query);
    if q.len() == 0 {
        return Vec::new();
    }
    let scope_root = match selector {
        Some(sel) => match resolve_selector(doc, sel) {
            Ok(id) => id,
            Err(_) => return Vec::new(),
        },
        None => doc.root_id(),
    };
    let block_ids = walk(scope_root, doc);
    let ghost ids = block_ids@;
    let mut matches: Vec<SearchMatch> = Vec::new();
    let mut i: usize = 0;
    while i < block_ids.len()
        invariant
            d == doc@,
            acyclic(d),
            ids == block_ids@,
            q@ == query@,
            i <= ids.len(),
            matches@.len() == hits(d, ids, q@, case_sensitive, i as int).len(),
            forall|k: int| 0 <= k < matches@.len() ==> #[trigger] matches@[k]@ == hits(d, ids, q@, case_sensitive, i as int)[k],
        decreases ids.len() - i,
    {
        let block_id = block_ids[i];
        if doc.get_block(block_id).is_some() {
            let text = extract_text(doc, block_id);
            if contains_query(text.as_slice(), q.as_slice(), case_sensitive) {
                let snip = first_matching_line(text.as_slice(), q.as_slice(), case_sensitive);
                matches.push(SearchMatch { block_id, matched_text: string_of(snip.as_slice()) });
            }
        }
        i = i + 1;
    }
    matches
}

proof fn lemma_hits_has(d: DocModel, ids: Seq<BlockId>, q: Seq<char>, case_sensitive: bool, k: int, p: int)
    requires
        0 <= p < k <= ids.len(),
        lookup(d.blocks, ids[p]) is Some,
        contains_q(text_of_id(d, ids[p]), q, case_sensitive),
    ensures
        exists|i: int| 0 <= i < hits(d, ids, q, case_sensitive, k).len() && #[trigger] hits(d, ids, q, case_sensitive, k)[i].block_id == ids[p],
    decreases k,
{
    let h = hits(d, ids, q, case_sensitive, k);
    if p < k - 1 {
        lemma_hits_has(d, ids, q, case_sensitive, k - 1, p);
        let prev = hits(d, ids, q, case_sensitive, k - 1);
        let i = choose|i: int| 0 <= i < prev.len() && #[trigger] prev[i].block_id == ids[p];
        assert(h[i] == prev[i]);
    } else {
        let prev = hits(d, ids, q, case_sensitive, k - 1);
        assert(h[prev.len() as int].block_id == ids[p]);
    }
}

/// A search finds every block of its scope whose own text contains the
/// query (ignoring case unless `case_sensitive`): a paragraph, fence,
/// indented code block, HTML block or unrecognized block by its raw text,
/// a section by its title.
pub proof fn law_search_finds_every_matching_block(
    d: DocModel,
    q: Seq<char>,
    sel: Option<SelectorModel>,
    case_sensitive: bool,
    p: int,
)
    requires
        q.len() > 0,
        ({
            let scope = match sel {
                Some(s) => resolve_spec(d, s),
                None => Ok(d.block.id),
            };
            &&& scope is Ok
            &&& 0 <= p < walk_spec(d, scope->Ok_0).len()
            &&& lookup(d.blocks, walk_spec(d, scope->Ok_0)[p]) matches Some(m) && match m {
                NodeModel::Paragraph { raw_text, .. } => contains_q(raw_text, q, case_sensitive),
                NodeModel::Fence { raw_text, .. } => contains_q(raw_text, q, case_sensitive),
                NodeModel::CodeBlock { raw_text, .. } => contains_q(raw_text, q, case_sensitive),
                NodeModel::Html { raw_text, .. } => contains_q(raw_text, q, case_sensitive),
                NodeModel::Unknown { raw_text, .. } => contains_q(raw_text, q, case_sensitive),
                NodeModel::Section { title, .. } => contains_q(title, q, case_sensitive),
                _ => false,
            }
        }),
    ensures
        ({
            let scope = match sel {
                Some(s) => resolve_spec(d, s),
                None => Ok(d.block.id),
            };
            let r = search_spec(d, q, sel, case_sensitive);
            exists|i: int| 0 <= i < r.len() && #[trigger] r[i].block_id == walk_spec(d, scope->Ok_0)[p]
        }),
{
    let scope = match sel {
        Some(s) => resolve_spec(d, s),
        None => Ok(d.block.id),
    };
    let ids = walk_spec(d, scope->Ok_0);
    let m = lookup(d.blocks, ids[p])->0;
    assert(text_of_id(d, ids[p]) == leaf_text(d, m));
    lemma_hits_has(d, ids, q, case_sensitive, ids.len() as int, p);
    let h = hits(d, ids, q, case_sensitive, ids.len() as int);
    assert(search_spec(d, q, sel, case_sensitive) == h);
    let i = choose|i: int| 0 <= i < h.len() && #[trigger] h[i].block_id == ids[p];
    assert(search_spec(d, q, sel, case_sensitive)[i].block_id == ids[p]);
}

} // verus!
