//! A plain-value model of the Markdown syntax tree, and its construction
//! from the tree that comrak parses.

use vstd::prelude::*;

use comrak::nodes::AstNode;

use crate::domain::container_blocks::Alignment;

verus! {

broadcast use vstd::std_specs::vec::group_vec_axioms;

/// What a syntax-tree node is, with the fields that the block extraction reads.
#[derive(Debug)]
pub enum MdKind {
    Heading { level: u8, setext: bool },
    Paragraph,
    CodeBlock { fenced: bool, info: String, literal: String },
    List { ordered: bool, tight: bool },
    BlockQuote,
    ThematicBreak,
    HtmlBlock { literal: String },
    Table { alignments: Vec<Alignment> },
    TableRow { header: bool },
    TableCell,
    /// Inline text: a text run, an inline code span or inline HTML.
    InlineLiteral { literal: String },
    /// A hard line break.
    LineBreak,
    /// A soft line break.
    SoftBreak,
    /// A list item that carries a task checkbox.
    TaskItem { checked: bool },
    /// Any other node (the document itself, plain list items, emphasis, links, ...).
    Other,
}

/// A syntax-tree node with its 1-based source position and its children.
#[derive(Debug)]
pub struct MdNode {
    pub kind: MdKind,
    pub start_line: usize,
    pub start_column: usize,
    pub end_line: usize,
    pub end_column: usize,
    pub children: Vec<MdNode>,
}

// ---------------------------------------------------------------------------
// comrak types
// ---------------------------------------------------------------------------

#[verifier::external_type_specification]
#[verifier::external_body]
#[verifier::reject_recursive_types(T)]
pub struct ExRefCell<T: ?Sized>(std::cell::RefCell<T>);

#[verifier::external_type_specification]
#[verifier::external_body]
pub struct ExAst(comrak::nodes::Ast);

#[verifier::external_type_specification]
#[verifier::external_body]
#[verifier::reject_recursive_types(T)]
pub struct ExArenaTreeNode<'a, T: 'a>(comrak::arena_tree::Node<'a, T>);

#[verifier::external_type_specification]
#[verifier::external_body]
pub struct ExTableAlignment(comrak::nodes::TableAlignment);

/// A simple node kind, told apart from comrak's `NodeValue`.
enum SimpleKind {
    Paragraph,
    BlockQuote,
    ThematicBreak,
    TableCell,
    SoftBreak,
    LineBreak,
    Other,
}

// ---------------------------------------------------------------------------
// Calls into comrak
// ---------------------------------------------------------------------------

/// The syntax tree that comrak parses from a text with the GitHub-flavoured
/// options of [`parse_gfm`], as plain values.
pub uninterp spec fn gfm_tree(text: Seq<char>) -> MdNode;

/// Calls `comrak::parse_document` on a fresh `comrak::Arena` with
/// GitHub-flavoured options (tables, strikethrough, autolinks, task lists,
/// superscript; no smart punctuation; comrak's rendering options do not
/// affect parsing and are left at their defaults), and converts the tree to
/// plain values with [`md_node_of`]. Claimed: the result depends on the text
/// alone, and is named [`gfm_tree`]; nothing more is stated of it.
#[verifier::external_body]
fn parse_gfm(text: &str) -> (r: MdNode)
    ensures
        r == gfm_tree(text@),
{
    let arena = comrak::Arena::new();
    let mut options = comrak::Options::default();
    options.extension.table = true;
    options.extension.strikethrough = true;
    options.extension.autolink = true;
    options.extension.tasklist = true;
    options.extension.superscript = true;
    options.parse.smart = false;
    md_node_of(comrak::parse_document(&arena, text, &options))
}

/// Converts a comrak node and its subtree to plain values, node for node:
/// the kind read by [`kind_of`], comrak's `Ast::sourcepos`, and the
/// children in comrak's order (`Node::children`). No contract.
#[verifier::external_body]
fn md_node_of<'a>(n: &'a AstNode<'a>) -> MdNode {
    let p = n.data.borrow().sourcepos;
    MdNode {
        kind: kind_of(n),
        start_line: p.start.line,
        start_column: p.start.column,
        end_line: p.end.line,
        end_column: p.end.column,
        children: n.children().map(md_node_of).collect(),
    }
}

/// Reads comrak's `NodeValue::Heading` from a node: its level and setext
/// flag, or `None` for another kind of node. Claimed, as comrak documents
/// `NodeHeading::level`: the level is 1 to 6, and 1 or 2 for a setext
/// heading.
#[verifier::external_body]
fn node_heading<'a>(n: &'a AstNode<'a>) -> (r: Option<(u8, bool)>)
    ensures
        r matches Some((level, setext)) ==> 1 <= level <= 6 && (setext ==> level <= 2),
{
    match &n.data.borrow().value {
        comrak::nodes::NodeValue::Heading(h) => Some((h.level, h.setext)),
        _ => None,
    }
}

/// Reads comrak's `NodeValue::CodeBlock` from a node: whether it is
/// fenced, its info string and its literal, or `None` for another kind of
/// node. Nothing is claimed of the values.
#[verifier::external_body]
fn node_code_block<'a>(n: &'a AstNode<'a>) -> Option<(bool, String, String)> {
    match &n.data.borrow().value {
        comrak::nodes::NodeValue::CodeBlock(c) => Some((c.fenced, c.info.clone(), c.literal.clone())),
        _ => None,
    }
}

/// Reads comrak's `NodeValue::List` from a node: whether the list is
/// ordered (`ListType::Ordered`) and whether it is tight, or `None` for
/// another kind of node. Nothing is claimed of the values.
#[verifier::external_body]
fn node_list<'a>(n: &'a AstNode<'a>) -> Option<(bool, bool)> {
    match &n.data.borrow().value {
        comrak::nodes::NodeValue::List(l) => match l.list_type {
            comrak::nodes::ListType::Ordered => Some((true, l.tight)),
            comrak::nodes::ListType::Bullet => Some((false, l.tight)),
        },
        _ => None,
    }
}

/// Reads comrak's `NodeValue::HtmlBlock` from a node: its literal, or
/// `None` for another kind of node. Nothing is claimed of the value.
#[verifier::external_body]
fn node_html_block<'a>(n: &'a AstNode<'a>) -> Option<String> {
    match &n.data.borrow().value {
        comrak::nodes::NodeValue::HtmlBlock(h) => Some(h.literal.clone()),
        _ => None,
    }
}

/// Reads comrak's `NodeValue::Table` from a node: its column alignments,
/// or `None` for another kind of node. Nothing is claimed of the values.
#[verifier::external_body]
fn node_table<'a>(n: &'a AstNode<'a>) -> Option<Vec<comrak::nodes::TableAlignment>> {
    match &n.data.borrow().value {
        comrak::nodes::NodeValue::Table(t) => Some(t.alignments.clone()),
        _ => None,
    }
}

/// Converts comrak's `TableAlignment` to the library's `Alignment`,
/// variant for variant (`None` is `Unspecified`). No contract.
#[verifier::external_body]
fn alignment_of(a: &comrak::nodes::TableAlignment) -> Alignment {
    match a {
        comrak::nodes::TableAlignment::None => Alignment::Unspecified,
        comrak::nodes::TableAlignment::Left => Alignment::Left,
        comrak::nodes::TableAlignment::Center => Alignment::Center,
        comrak::nodes::TableAlignment::Right => Alignment::Right,
    }
}

/// Reads comrak's `NodeValue::TableRow` from a node: whether the row is
/// the header row, or `None` for another kind of node. Nothing is claimed.
#[verifier::external_body]
fn node_table_row<'a>(n: &'a AstNode<'a>) -> Option<bool> {
    match &n.data.borrow().value {
        comrak::nodes::NodeValue::TableRow(h) => Some(*h),
        _ => None,
    }
}

/// Reads the literal of comrak's `NodeValue::Text`, `NodeValue::Code` or
/// `NodeValue::HtmlInline` from a node, or `None` for another kind of node.
/// Nothing is claimed of the value.
#[verifier::external_body]
fn node_inline_literal<'a>(n: &'a AstNode<'a>) -> Option<String> {
    match &n.data.borrow().value {
        comrak::nodes::NodeValue::Text(t) => Some(t.to_string()),
        comrak::nodes::NodeValue::Code(c) => Some(c.literal.clone()),
        comrak::nodes::NodeValue::HtmlInline(h) => Some(h.clone()),
        _ => None,
    }
}

/// Reads comrak's `NodeValue::TaskItem` from a node: the checkbox symbol
/// (`None` inside when unchecked), or `None` for another kind of node.
/// Nothing is claimed of the value.
#[verifier::external_body]
fn node_task_item<'a>(n: &'a AstNode<'a>) -> Option<Option<char>> {
    match &n.data.borrow().value {
        comrak::nodes::NodeValue::TaskItem(t) => Some(t.symbol),
        _ => None,
    }
}

/// Tells apart comrak's field-less node kinds that the extraction reads
/// (`Paragraph`, `BlockQuote`, `ThematicBreak`, `TableCell`, `SoftBreak`,
/// `LineBreak`), one arm each; any other is `Other`. No contract.
#[verifier::external_body]
fn node_simple_kind<'a>(n: &'a AstNode<'a>) -> SimpleKind {
    match &n.data.borrow().value {
        comrak::nodes::NodeValue::Paragraph => SimpleKind::Paragraph,
        comrak::nodes::NodeValue::BlockQuote => SimpleKind::BlockQuote,
        comrak::nodes::NodeValue::ThematicBreak => SimpleKind::ThematicBreak,
        comrak::nodes::NodeValue::TableCell => SimpleKind::TableCell,
        comrak::nodes::NodeValue::SoftBreak => SimpleKind::SoftBreak,
        comrak::nodes::NodeValue::LineBreak => SimpleKind::LineBreak,
        _ => SimpleKind::Other,
    }
}

// ---------------------------------------------------------------------------
// Building the plain tree
// ---------------------------------------------------------------------------

/// Whether a node kind is as comrak documents it: a heading's level is 1 to
/// 6, and 1 or 2 for a setext heading.
pub open spec fn kind_ok(k: MdKind) -> bool {
    match k {
        MdKind::Heading { level, setext } => 1 <= level <= 6 && (setext ==> level <= 2),
        _ => true,
    }
}

/// The alignments of a table's columns, one per column.
fn alignments_of(v: &Vec<comrak::nodes::TableAlignment>) -> (r: Vec<Alignment>)
    ensures
        r@.len() == v@.len(),
{
    let mut out: Vec<Alignment> = Vec::new();
    let mut i: usize = 0;
    while i < v.len()
        invariant
            i <= v.len(),
            out@.len() == i,
        decreases v.len() - i,
    {
        out.push(alignment_of(&v[i]));
        i = i + 1;
    }
    out
}

/// The kind of a node, read from comrak's `NodeValue` with the fields that
/// the extraction uses.
fn kind_of<'a>(n: &'a AstNode<'a>) -> (r: MdKind)
    ensures
        kind_ok(r),
{
    if let Some((level, setext)) = node_heading(n) {
        return MdKind::Heading { level, setext };
    }
    if let Some((fenced, info, literal)) = node_code_block(n) {
        return MdKind::CodeBlock { fenced, info, literal };
    }
    if let Some((ordered, tight)) = node_list(n) {
        return MdKind::List { ordered, tight };
    }
    if let Some(literal) = node_html_block(n) {
        return MdKind::HtmlBlock { literal };
    }
    if let Some(aligns) = node_table(n) {
        return MdKind::Table { alignments: alignments_of(&aligns) };
    }
    if let Some(header) = node_table_row(n) {
        return MdKind::TableRow { header };
    }
    if let Some(literal) = node_inline_literal(n) {
        return MdKind::InlineLiteral { literal };
    }
    if let Some(symbol) = node_task_item(n) {
        return MdKind::TaskItem { checked: symbol.is_some() };
    }
    match node_simple_kind(n) {
        SimpleKind::Paragraph => MdKind::Paragraph,
        SimpleKind::BlockQuote => MdKind::BlockQuote,
        SimpleKind::ThematicBreak => MdKind::ThematicBreak,
        SimpleKind::TableCell => MdKind::TableCell,
        SimpleKind::SoftBreak => MdKind::SoftBreak,
        SimpleKind::LineBreak => MdKind::LineBreak,
        SimpleKind::Other => MdKind::Other,
    }
}

/// Parses a text with comrak (GitHub-flavoured options) and returns its
/// syntax tree as plain values.
pub fn parse_tree(text: &str) -> (r: MdNode)
    ensures
        r == gfm_tree(text@),
{
    parse_gfm(text)
}

} // verus!
