use vstd::prelude::*;

use crate::domain::block_node::opt_view;
use crate::primitives::BlockId;
use crate::text::{append, chars_of, decimal, decimal_chars, string_of};

verus! {

/// Unified block selector for addressing blocks in the document tree.
#[derive(Debug, Clone)]
pub struct BlockSelector {
    /// Direct block ID lookup.
    pub id: Option<BlockId>,
    /// Canonical section path (e.g., "/Architecture/Parser").
    pub path: Option<String>,
    /// Nth child of resolved parent (0-based).
    pub block_index: Option<usize>,
    /// Filter by type name (e.g., "fence", "table").
    pub block_type: Option<String>,
    /// Match SectionBlock title.
    pub title: Option<String>,
    /// Match SectionBlock level.
    pub level: Option<u8>,
    /// Resolve ambiguity by taking first match.
    pub allow_first_match: bool,
}

/// The mathematical content of a [`BlockSelector`].
pub struct SelectorModel {
    pub id: Option<BlockId>,
    pub path: Option<Seq<char>>,
    pub block_index: Option<usize>,
    pub block_type: Option<Seq<char>>,
    pub title: Option<Seq<char>>,
    pub level: Option<u8>,
    pub allow_first_match: bool,
}

impl View for BlockSelector {
    type V = SelectorModel;

    open spec fn view(&self) -> SelectorModel {
        SelectorModel {
            id: self.id,
            path: opt_view(self.path),
            block_index: self.block_index,
            block_type: opt_view(self.block_type),
            title: opt_view(self.title),
            level: self.level,
            allow_first_match: self.allow_first_match,
        }
    }
}

impl SelectorModel {
    /// Whether no field selects anything (such a selector means the root).
    pub open spec fn spec_is_empty(self) -> bool {
        &&& self.id is None
        &&& self.path is None
        &&& self.block_index is None
        &&& self.block_type is None
        &&& self.title is None
        &&& self.level is None
    }

    /// The selector that selects nothing, with `allow_first_match` off.
    pub open spec fn empty() -> SelectorModel {
        SelectorModel {
            id: None,
            path: None,
            block_index: None,
            block_type: None,
            title: None,
            level: None,
            allow_first_match: false,
        }
    }
}

impl Default for BlockSelector {
    fn default() -> (r: Self)
        ensures
            r@ == SelectorModel::empty(),
    {
        BlockSelector {
            id: None,
            path: None,
            block_index: None,
            block_type: None,
            title: None,
            level: None,
            allow_first_match: false,
        }
    }
}

impl BlockSelector {
    /// A selector for the block with the given id.
    pub fn from_id(id: BlockId) -> (r: Self)
        ensures
            r@ == (SelectorModel { id: Some(id), ..SelectorModel::empty() }),
    {
        BlockSelector { id: Some(id), ..Default::default() }
    }

    /// A selector for the section with the given canonical path.
    pub fn from_path(path: &str) -> (r: Self)
        ensures
            r@ == (SelectorModel { path: Some(path@), ..SelectorModel::empty() }),
    {
        BlockSelector { path: Some(path.to_string()), ..Default::default() }
    }

    /// Returns true if all fields are None (empty selector resolves to root).
    pub fn is_empty(&self) -> (r: bool)
        ensures
            r == self@.spec_is_empty(),
    {
        self.id.is_none() && self.path.is_none() && self.block_index.is_none() && self.block_type.is_none()
            && self.title.is_none() && self.level.is_none()
    }
}

/// A selector from command-line options: by id when one is given, else by
/// path when one is given, else the empty selector (the root).
pub fn make_selector(path: Option<String>, id: Option<u32>) -> (r: BlockSelector)
    ensures
        r@ == (match id {
            Some(i) => SelectorModel { id: Some(BlockId(i)), ..SelectorModel::empty() },
            None => match path {
                Some(p) => SelectorModel { path: Some(p@), ..SelectorModel::empty() },
                None => SelectorModel::empty(),
            },
        }),
{
    match id {
        Some(i) => BlockSelector::from_id(BlockId(i)),
        None => match path {
            Some(p) => BlockSelector::from_path(p.as_str()),
            None => BlockSelector::default(),
        },
    }
}

/// A character as a quoted string shows it: quotes, backslashes and the
/// control characters `\0`, `\t`, `\r`, `\n` escaped with a backslash,
/// any other character as it is.
pub open spec fn escaped_char(c: char) -> Seq<char> {
    if c == '"' {
        seq!['\\', '"']
    } else if c == '\\' {
        seq!['\\', '\\']
    } else if c == '\n' {
        seq!['\\', 'n']
    } else if c == '\r' {
        seq!['\\', 'r']
    } else if c == '\t' {
        seq!['\\', 't']
    } else if c == '\0' {
        seq!['\\', '0']
    } else {
        seq![c]
    }
}

/// The characters of a text, each escaped.
pub open spec fn escaped(s: Seq<char>) -> Seq<char>
    decreases s.len(),
{
    if s.len() == 0 {
        Seq::empty()
    } else {
        escaped(s.drop_last()) + escaped_char(s.last())
    }
}

/// An optional text in the `Debug` layout: `Some("...")` or `None`.
pub open spec fn debug_opt_text(o: Option<Seq<char>>) -> Seq<char> {
    match o {
        Some(t) => "Some(\""@ + escaped(t) + "\")"@,
        None => "None"@,
    }
}

/// An optional number in the `Debug` layout: `Some(n)` or `None`.
pub open spec fn debug_opt_num(o: Option<nat>) -> Seq<char> {
    match o {
        Some(n) => "Some("@ + decimal(n) + ")"@,
        None => "None"@,
    }
}

/// The text of a selector in the layout of its derived `Debug`: the struct
/// name, then each field by name in declaration order.
pub open spec fn selector_debug(sel: SelectorModel) -> Seq<char> {
    "BlockSelector { id: "@ + debug_id(sel.id) + ", path: "@ + debug_opt_text(sel.path) + ", block_index: "@ + debug_opt_num(
        match sel.block_index {
            Some(i) => Some(i as nat),
            None => None,
        },
    ) + ", block_type: "@ + debug_opt_text(sel.block_type) + ", title: "@ + debug_opt_text(sel.title) + ", level: "@
        + debug_opt_num(
        match sel.level {
            Some(l) => Some(l as nat),
            None => None,
        },
    ) + ", allow_first_match: "@ + (if sel.allow_first_match {
        "true"@
    } else {
        "false"@
    }) + " }"@
}

fn push_escaped(out: &mut Vec<char>, s: &str)
    ensures
        final(out)@ == old(out)@ + escaped(s@),
{
    let cs = chars_of(s);
    let ghost start = out@;
    let mut i: usize = 0;
    assert(cs@.take(0) =~= Seq::<char>::empty());
    while i < cs.len()
        invariant
            i <= cs@.len(),
            cs@ == s@,
            out@ == start + escaped(cs@.take(i as int)),
        decreases cs@.len() - i,
    {
        let c = cs[i];
        let e: Vec<char> = if c == '"' {
            vec!['\\', '"']
        } else if c == '\\' {
            vec!['\\', '\\']
        } else if c == '\n' {
            vec!['\\', 'n']
        } else if c == '\r' {
            vec!['\\', 'r']
        } else if c == '\t' {
            vec!['\\', 't']
        } else if c == '\0' {
            vec!['\\', '0']
        } else {
            vec![c]
        };
        assert(e@ =~= escaped_char(c));
        append(out, e.as_slice());
        assert(cs@.take(i + 1).drop_last() =~= cs@.take(i as int));
        assert(out@ =~= start + escaped(cs@.take(i + 1)));
        i = i + 1;
    }
    assert(cs@.take(i as int) =~= cs@);
}

fn push_opt_text(out: &mut Vec<char>, o: &Option<String>)
    ensures
        final(out)@ == old(out)@ + debug_opt_text(opt_view(*o)),
{
    match o {
        Some(t) => {
            append(out, chars_of("Some(\"").as_slice());
            push_escaped(out, t.as_str());
            append(out, chars_of("\")").as_slice());
        },
        None => {
            append(out, chars_of("None").as_slice());
        },
    }
}

fn push_opt_num(out: &mut Vec<char>, o: Option<usize>)
    ensures
        final(out)@ == old(out)@ + debug_opt_num(
            match o {
                Some(i) => Some(i as nat),
                None => None,
            },
        ),
{
    match o {
        Some(n) => {
            append(out, chars_of("Some(").as_slice());
            append(out, decimal_chars(n).as_slice());
            append(out, chars_of(")").as_slice());
        },
        None => {
            append(out, chars_of("None").as_slice());
        },
    }
}

/// The `id` field of a selector in the `Debug` layout.
pub open spec fn debug_id(id: Option<BlockId>) -> Seq<char> {
    match id {
        Some(id) => "Some(BlockId("@ + decimal(id.0 as nat) + "))"@,
        None => "None"@,
    }
}

fn push_id(out: &mut Vec<char>, id: Option<BlockId>)
    ensures
        final(out)@ == old(out)@ + debug_id(id),
{
    match id {
        Some(id) => {
            append(out, chars_of("Some(BlockId(").as_slice());
            append(out, decimal_chars(id.0 as usize).as_slice());
            append(out, chars_of("))").as_slice());
        },
        None => {
            append(out, chars_of("None").as_slice());
        },
    }
}

fn push_flag(out: &mut Vec<char>, b: bool)
    ensures
        final(out)@ == old(out)@ + (if b {
            "true"@
        } else {
            "false"@
        }),
{
    if b {
        append(out, chars_of("true").as_slice());
    } else {
        append(out, chars_of("false").as_slice());
    }
}

/// Formats a selector in the layout of its derived `Debug`.
pub(crate) fn debug_text(sel: &BlockSelector) -> (r: String)
    ensures
        r@ == selector_debug(sel@),
{
    let mut out = chars_of("BlockSelector { id: ");
    push_id(&mut out, sel.id);
    append(&mut out, chars_of(", path: ").as_slice());
    push_opt_text(&mut out, &sel.path);
    append(&mut out, chars_of(", block_index: ").as_slice());
    push_opt_num(&mut out, sel.block_index);
    append(&mut out, chars_of(", block_type: ").as_slice());
    push_opt_text(&mut out, &sel.block_type);
    append(&mut out, chars_of(", title: ").as_slice());
    push_opt_text(&mut out, &sel.title);
    append(&mut out, chars_of(", level: ").as_slice());
    let level: Option<usize> = match sel.level {
        Some(l) => Some(l as usize),
        None => None,
    };
    push_opt_num(&mut out, level);
    append(&mut out, chars_of(", allow_first_match: ").as_slice());
    push_flag(&mut out, sel.allow_first_match);
    append(&mut out, chars_of(" }").as_slice());
    string_of(out.as_slice())
}

/// Position for insert operations.
#[derive(Debug, Clone, Copy, PartialEq, Eq, Structural)]
pub enum InsertPosition {
    Before,
    After,
    Append,
    Index(usize),
}

} // verus!
