use vstd::prelude::*;

use crate::domain::block::{Block, BlockModel};
use crate::domain::container_blocks::{
    Alignment, BlockquoteBlock, ListBlock, ListItemBlock, TableBlock,
};
use crate::domain::document::DocumentBlock;
use crate::domain::leaf_blocks::{
    CodeBlock, FenceBlock, HtmlBlock, LinkRefDefBlock, ParagraphBlock, ThematicBreakBlock,
    UnknownBlock,
};
use crate::domain::section::{HeadingVariant, SectionBlock};
use crate::text::{string_views, views};

verus! {

/// Sum type over all concrete block variants.
#[derive(Debug)]
pub enum BlockNode {
    Document(DocumentBlock),
    Section(SectionBlock),
    Blockquote(BlockquoteBlock),
    List(ListBlock),
    ListItem(ListItemBlock),
    Table(TableBlock),
    Paragraph(ParagraphBlock),
    Fence(FenceBlock),
    CodeBlock(CodeBlock),
    ThematicBreak(ThematicBreakBlock),
    Html(HtmlBlock),
    LinkRefDef(LinkRefDefBlock),
    Unknown(UnknownBlock),
}

/// The mathematical content of a [`BlockNode`].
pub enum NodeModel {
    Document { block: BlockModel },
    Section {
        block: BlockModel,
        level: u8,
        title: Seq<char>,
        slug: Seq<char>,
        path: Seq<char>,
        ordinal: u32,
        variant: HeadingVariant,
    },
    Blockquote { block: BlockModel },
    List { block: BlockModel, ordered: bool, marker: char, tight: bool },
    ListItem { block: BlockModel, checked: Option<bool>, order: Option<u32> },
    Table {
        block: BlockModel,
        alignments: Seq<Alignment>,
        header_row: Seq<Seq<char>>,
        body_rows: Seq<Seq<Seq<char>>>,
    },
    Paragraph { block: BlockModel, raw_text: Seq<char> },
    Fence {
        block: BlockModel,
        language: Option<Seq<char>>,
        info_string: Option<Seq<char>>,
        raw_text: Seq<char>,
    },
    CodeBlock { block: BlockModel, raw_text: Seq<char> },
    ThematicBreak { block: BlockModel },
    Html { block: BlockModel, raw_text: Seq<char> },
    LinkRefDef {
        block: BlockModel,
        label: Seq<char>,
        destination: Seq<char>,
        title: Option<Seq<char>>,
    },
    Unknown { block: BlockModel, raw_text: Seq<char> },
}

/// The character view of an optional string.
pub open spec fn opt_view(o: Option<String>) -> Option<Seq<char>> {
    match o {
        Some(s) => Some(s@),
        None => None,
    }
}

/// The character views of table rows.
pub open spec fn rows_view(rows: Seq<Vec<String>>) -> Seq<Seq<Seq<char>>> {
    Seq::new(rows.len(), |i: int| string_views(rows[i]@))
}

impl View for BlockNode {
    type V = NodeModel;

    open spec fn view(&self) -> NodeModel {
        match self {
            BlockNode::Document(d) => NodeModel::Document { block: d.block@ },
            BlockNode::Section(s) => NodeModel::Section {
                block: s.block@,
                level: s.level,
                title: s.title@,
                slug: s.slug@,
                path: s.path@,
                ordinal: s.ordinal,
                variant: s.variant,
            },
            BlockNode::Blockquote(b) => NodeModel::Blockquote { block: b.block@ },
            BlockNode::List(l) => NodeModel::List {
                block: l.block@,
                ordered: l.ordered,
                marker: l.marker,
                tight: l.tight,
            },
            BlockNode::ListItem(li) => NodeModel::ListItem {
                block: li.block@,
                checked: li.checked,
                order: li.order,
            },
            BlockNode::Table(t) => NodeModel::Table {
                block: t.block@,
                alignments: t.alignments@,
                header_row: string_views(t.header_row@),
                body_rows: rows_view(t.body_rows@),
            },
            BlockNode::Paragraph(p) => NodeModel::Paragraph { block: p.block@, raw_text: p.raw_text@ },
            BlockNode::Fence(f) => NodeModel::Fence {
                block: f.block@,
                language: opt_view(f.language),
                info_string: opt_view(f.info_string),
                raw_text: f.raw_text@,
            },
            BlockNode::CodeBlock(c) => NodeModel::CodeBlock { block: c.block@, raw_text: c.raw_text@ },
            BlockNode::ThematicBreak(tb) => NodeModel::ThematicBreak { block: tb.block@ },
            BlockNode::Html(h) => NodeModel::Html { block: h.block@, raw_text: h.raw_text@ },
            BlockNode::LinkRefDef(l) => NodeModel::LinkRefDef {
                block: l.block@,
                label: l.label@,
                destination: l.destination@,
                title: opt_view(l.title),
            },
            BlockNode::Unknown(u) => NodeModel::Unknown { block: u.block@, raw_text: u.raw_text@ },
        }
    }
}

impl NodeModel {
    /// The common block data of a node.
    pub open spec fn block(self) -> BlockModel {
        match self {
            NodeModel::Document { block } => block,
            NodeModel::Section { block, .. } => block,
            NodeModel::Blockquote { block } => block,
            NodeModel::List { block, .. } => block,
            NodeModel::ListItem { block, .. } => block,
            NodeModel::Table { block, .. } => block,
            NodeModel::Paragraph { block, .. } => block,
            NodeModel::Fence { block, .. } => block,
            NodeModel::CodeBlock { block, .. } => block,
            NodeModel::ThematicBreak { block } => block,
            NodeModel::Html { block, .. } => block,
            NodeModel::LinkRefDef { block, .. } => block,
            NodeModel::Unknown { block, .. } => block,
        }
    }

    /// The node with its common block data replaced.
    pub open spec fn with_block(self, b: BlockModel) -> NodeModel {
        match self {
            NodeModel::Document { .. } => NodeModel::Document { block: b },
            NodeModel::Section { level, title, slug, path, ordinal, variant, .. } =>
                NodeModel::Section { block: b, level, title, slug, path, ordinal, variant },
            NodeModel::Blockquote { .. } => NodeModel::Blockquote { block: b },
            NodeModel::List { ordered, marker, tight, .. } => NodeModel::List { block: b, ordered, marker, tight },
            NodeModel::ListItem { checked, order, .. } => NodeModel::ListItem { block: b, checked, order },
            NodeModel::Table { alignments, header_row, body_rows, .. } =>
                NodeModel::Table { block: b, alignments, header_row, body_rows },
            NodeModel::Paragraph { raw_text, .. } => NodeModel::Paragraph { block: b, raw_text },
            NodeModel::Fence { language, info_string, raw_text, .. } =>
                NodeModel::Fence { block: b, language, info_string, raw_text },
            NodeModel::CodeBlock { raw_text, .. } => NodeModel::CodeBlock { block: b, raw_text },
            NodeModel::ThematicBreak { .. } => NodeModel::ThematicBreak { block: b },
            NodeModel::Html { raw_text, .. } => NodeModel::Html { block: b, raw_text },
            NodeModel::LinkRefDef { label, destination, title, .. } =>
                NodeModel::LinkRefDef { block: b, label, destination, title },
            NodeModel::Unknown { raw_text, .. } => NodeModel::Unknown { block: b, raw_text },
        }
    }

    /// The lowercase type name of a node.
    pub open spec fn kind_name(self) -> Seq<char> {
        match self {
            NodeModel::Document { .. } => "document"@,
            NodeModel::Section { .. } => "section"@,
            NodeModel::Blockquote { .. } => "blockquote"@,
            NodeModel::List { .. } => "list"@,
            NodeModel::ListItem { .. } => "list_item"@,
            NodeModel::Table { .. } => "table"@,
            NodeModel::Paragraph { .. } => "paragraph"@,
            NodeModel::Fence { .. } => "fence"@,
            NodeModel::CodeBlock { .. } => "code_block"@,
            NodeModel::ThematicBreak { .. } => "thematic_break"@,
            NodeModel::Html { .. } => "html"@,
            NodeModel::LinkRefDef { .. } => "link_ref_def"@,
            NodeModel::Unknown { .. } => "unknown"@,
        }
    }
}

impl BlockNode {
    /// The common block data of this node.
    pub open spec fn spec_block(&self) -> Block {
        match self {
            BlockNode::Document(d) => d.block,
            BlockNode::Section(s) => s.block,
            BlockNode::Blockquote(b) => b.block,
            BlockNode::List(l) => l.block,
            BlockNode::ListItem(li) => li.block,
            BlockNode::Table(t) => t.block,
            BlockNode::Paragraph(p) => p.block,
            BlockNode::Fence(f) => f.block,
            BlockNode::CodeBlock(c) => c.block,
            BlockNode::ThematicBreak(tb) => tb.block,
            BlockNode::Html(h) => h.block,
            BlockNode::LinkRefDef(lrd) => lrd.block,
            BlockNode::Unknown(u) => u.block,
        }
    }

    /// The common block data of this node.
    pub fn block(&self) -> (r: &Block)
        ensures
            *r == self.spec_block(),
            r@ == self@.block(),
    {
        match self {
            BlockNode::Document(d) => &d.block,
            BlockNode::Section(s) => &s.block,
            BlockNode::Blockquote(b) => &b.block,
            BlockNode::List(l) => &l.block,
            BlockNode::ListItem(li) => &li.block,
            BlockNode::Table(t) => &t.block,
            BlockNode::Paragraph(p) => &p.block,
            BlockNode::Fence(f) => &f.block,
            BlockNode::CodeBlock(c) => &c.block,
            BlockNode::ThematicBreak(tb) => &tb.block,
            BlockNode::Html(h) => &h.block,
            BlockNode::LinkRefDef(lrd) => &lrd.block,
            BlockNode::Unknown(u) => &u.block,
        }
    }

    /// Mutable access to the common block data of this node.
    pub fn block_mut(&mut self) -> (r: &mut Block)
        ensures
            *r == old(self).spec_block(),
            final(self)@ == old(self)@.with_block(final(r)@),
    {
        match self {
            BlockNode::Document(d) => &mut d.block,
            BlockNode::Section(s) => &mut s.block,
            BlockNode::Blockquote(b) => &mut b.block,
            BlockNode::List(l) => &mut l.block,
            BlockNode::ListItem(li) => &mut li.block,
            BlockNode::Table(t) => &mut t.block,
            BlockNode::Paragraph(p) => &mut p.block,
            BlockNode::Fence(f) => &mut f.block,
            BlockNode::CodeBlock(c) => &mut c.block,
            BlockNode::ThematicBreak(tb) => &mut tb.block,
            BlockNode::Html(h) => &mut h.block,
            BlockNode::LinkRefDef(lrd) => &mut lrd.block,
            BlockNode::Unknown(u) => &mut u.block,
        }
    }

    /// Returns the lowercase type name string for this block variant.
    pub fn block_type_name(&self) -> (r: &'static str)
        ensures
            r@ == self@.kind_name(),
    {
        match self {
            BlockNode::Document(_) => "document",
            BlockNode::Section(_) => "section",
            BlockNode::Blockquote(_) => "blockquote",
            BlockNode::List(_) => "list",
            BlockNode::ListItem(_) => "list_item",
            BlockNode::Table(_) => "table",
            BlockNode::Paragraph(_) => "paragraph",
            BlockNode::Fence(_) => "fence",
            BlockNode::CodeBlock(_) => "code_block",
            BlockNode::ThematicBreak(_) => "thematic_break",
            BlockNode::Html(_) => "html",
            BlockNode::LinkRefDef(_) => "link_ref_def",
            BlockNode::Unknown(_) => "unknown",
        }
    }
}


/// A copy of an optional string.
pub fn copy_opt(o: &Option<String>) -> (r: Option<String>)
    ensures
        opt_view(r) == opt_view(*o),
{
    match o {
        Some(s) => Some(s.clone()),
        None => None,
    }
}

/// A copy of a list of strings.
pub fn copy_strings(v: &Vec<String>) -> (r: Vec<String>)
    ensures
        string_views(r@) == string_views(v@),
{
    let mut out: Vec<String> = Vec::new();
    let mut i: usize = 0;
    while i < v.len()
        invariant
            i <= v.len(),
            string_views(out@) == string_views(v@.take(i as int)),
        decreases v.len() - i,
    {
        let ghost before = string_views(out@);
        out.push(v[i].clone());
        assert(string_views(out@) =~= before.push(v@[i as int]@));
        assert(string_views(v@.take(i + 1)) =~= string_views(v@.take(i as int)).push(v@[i as int]@));
        i = i + 1;
    }
    assert(v@.take(v.len() as int) =~= v@);
    out
}

/// A copy of the body rows of a table.
pub fn copy_rows(v: &Vec<Vec<String>>) -> (r: Vec<Vec<String>>)
    ensures
        rows_view(r@) == rows_view(v@),
{
    let mut out: Vec<Vec<String>> = Vec::new();
    let mut i: usize = 0;
    while i < v.len()
        invariant
            i <= v.len(),
            rows_view(out@) == rows_view(v@.take(i as int)),
        decreases v.len() - i,
    {
        let ghost before = rows_view(out@);
        out.push(copy_strings(&v[i]));
        assert(rows_view(out@) =~= before.push(string_views(v@[i as int]@)));
        assert(rows_view(v@.take(i + 1)) =~= rows_view(v@.take(i as int)).push(string_views(v@[i as int]@)));
        i = i + 1;
    }
    assert(v@.take(v.len() as int) =~= v@);
    out
}

impl BlockNode {
    /// A copy of this node with the same content.
    pub fn duplicate(&self) -> (r: BlockNode)
        ensures
            r@ == self@,
        decreases self,
    {
        match self {
            BlockNode::Document(d) => BlockNode::Document(d.duplicate()),
            BlockNode::Section(s) => BlockNode::Section(SectionBlock {
                block: s.block.duplicate(),
                level: s.level,
                title: s.title.clone(),
                slug: s.slug.clone(),
                path: s.path.clone(),
                ordinal: s.ordinal,
                variant: s.variant,
            }),
            BlockNode::Blockquote(b) => BlockNode::Blockquote(BlockquoteBlock { block: b.block.duplicate() }),
            BlockNode::List(l) => BlockNode::List(ListBlock {
                block: l.block.duplicate(),
                ordered: l.ordered,
                marker: l.marker,
                tight: l.tight,
            }),
            BlockNode::ListItem(li) => BlockNode::ListItem(ListItemBlock {
                block: li.block.duplicate(),
                checked: li.checked,
                order: li.order,
            }),
            BlockNode::Table(t) => BlockNode::Table(TableBlock {
                block: t.block.duplicate(),
                alignments: crate::infrastructure::parser::copy_alignments(&t.alignments),
                header_row: copy_strings(&t.header_row),
                body_rows: copy_rows(&t.body_rows),
            }),
            BlockNode::Paragraph(p) => BlockNode::Paragraph(ParagraphBlock {
                block: p.block.duplicate(),
                raw_text: p.raw_text.clone(),
            }),
            BlockNode::Fence(f) => BlockNode::Fence(FenceBlock {
                block: f.block.duplicate(),
                language: copy_opt(&f.language),
                info_string: copy_opt(&f.info_string),
                raw_text: f.raw_text.clone(),
            }),
            BlockNode::CodeBlock(c) => BlockNode::CodeBlock(CodeBlock {
                block: c.block.duplicate(),
                raw_text: c.raw_text.clone(),
            }),
            BlockNode::ThematicBreak(tb) => BlockNode::ThematicBreak(ThematicBreakBlock { block: tb.block.duplicate() }),
            BlockNode::Html(h) => BlockNode::Html(HtmlBlock { block: h.block.duplicate(), raw_text: h.raw_text.clone() }),
            BlockNode::LinkRefDef(l) => BlockNode::LinkRefDef(LinkRefDefBlock {
                block: l.block.duplicate(),
                label: l.label.clone(),
                destination: l.destination.clone(),
                title: copy_opt(&l.title),
            }),
            BlockNode::Unknown(u) => BlockNode::Unknown(UnknownBlock {
                block: u.block.duplicate(),
                raw_text: u.raw_text.clone(),
            }),
        }
    }
}

} // verus!
