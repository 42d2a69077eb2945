//! Structural validation of a parsed document.

use vstd::prelude::*;

use crate::domain::block_node::{BlockNode, NodeModel};
use crate::domain::document::{DocModel, DocumentBlock};
use crate::domain::leaf_blocks::FenceBlock;
use crate::domain::section::SectionBlock;
use crate::error::{diag_views, DiagModel, Diagnostic, Severity};
use crate::primitives::LineRange;
use crate::processing::normalize::run_len;
use crate::text::{
    append, chars_eq, chars_of, decimal, decimal_chars, is_blank, lines_of, split_lines, starts_with, string_of,
    trim_start, trim_start_ws, trim_ws, views,
};

verus! {

broadcast use vstd::std_specs::vec::group_vec_axioms;

// ---------------------------------------------------------------------------
// Specifications
// ---------------------------------------------------------------------------

/// Whether two blocks are sections with the same path and ordinal.
pub open spec fn same_key(a: NodeModel, b: NodeModel) -> bool {
    &&& a matches NodeModel::Section { path: pa, ordinal: oa, .. }
    &&& b matches NodeModel::Section { path: pb, ordinal: ob, .. }
    &&& pa == pb
    &&& oa == ob
}

/// The number of sections among the first `k` blocks with the same path
/// and ordinal as section `m`.
pub open spec fn key_count(blocks: Seq<NodeModel>, m: NodeModel, k: int) -> nat
    decreases k,
{
    if k <= 0 {
        0
    } else {
        key_count(blocks, m, k - 1) + if same_key(blocks[k - 1], m) { 1nat } else { 0nat }
    }
}

/// A warning or error about the lines of a block.
pub open spec fn diag_at(code: Seq<char>, severity: Severity, message: Seq<char>, range: LineRange, fix: Seq<char>) -> DiagModel {
    DiagModel {
        code,
        severity,
        message,
        line: Some(range.start),
        column: None,
        line_range: Some(range),
        suggested_fix: Some(fix),
    }
}

/// The duplicate-path warning for section `i`, when an earlier section has
/// its path and ordinal.
pub open spec fn dup_diags(blocks: Seq<NodeModel>, i: int) -> Seq<DiagModel> {
    let m = blocks[i];
    let n = key_count(blocks, m, i + 1);
    if n > 1 {
        seq![
            diag_at(
                "DUPLICATE_SECTION_PATH"@,
                Severity::Warning,
                "Duplicate section path '"@ + m->Section_path + "' with ordinal "@ + decimal(m->Section_ordinal as nat)
                    + " (occurrence "@ + decimal(n) + ")"@,
                m.block().line_range,
                "Rename or renumber section '"@ + m->Section_title + "' to disambiguate"@,
            ),
        ]
    } else {
        Seq::empty()
    }
}

/// The empty-section warning for a section without children.
pub open spec fn empty_diags(m: NodeModel) -> Seq<DiagModel> {
    if m.block().children.len() == 0 {
        seq![
            diag_at(
                "EMPTY_SECTION"@,
                Severity::Warning,
                "Section '"@ + m->Section_title + "' at line "@ + decimal(m.block().line_range.start as nat)
                    + " has no content"@,
                m.block().line_range,
                "Add content under heading '"@ + m->Section_title + "' or remove the empty section"@,
            ),
        ]
    } else {
        Seq::empty()
    }
}

/// Whether a line closes a fence of `len` characters `c`: after leading
/// whitespace, at least `len` of them and nothing but whitespace after.
pub open spec fn closes(line: Seq<char>, c: char, len: nat) -> bool {
    let t = trim_start_ws(line);
    let n = run_len(t, c);
    &&& t.len() > 0
    &&& t[0] == c
    &&& n >= len
    &&& trim_ws(t.skip(n as int)).len() == 0
}

/// The diagnostics of block `i`.
pub open spec fn block_diags(d: DocModel, i: int) -> Seq<DiagModel> {
    let m = d.blocks[i];
    match m {
        NodeModel::Section { .. } => dup_diags(d.blocks, i) + empty_diags(m),
        NodeModel::Fence { .. } => fence_diags_of(lines_of(d.source_text), m),
        _ => Seq::empty(),
    }
}

/// The diagnostics of the first `k` blocks, in order.
pub open spec fn blocks_diags(d: DocModel, k: int) -> Seq<DiagModel>
    decreases k,
{
    if k <= 0 {
        Seq::empty()
    } else {
        blocks_diags(d, k - 1) + block_diags(d, k - 1)
    }
}

/// The result of validation: the document's own diagnostics, then those
/// of its blocks in order.
pub open spec fn validate_spec(d: DocModel) -> Seq<DiagModel> {
    d.diagnostics + blocks_diags(d, d.blocks.len() as int)
}

// ---------------------------------------------------------------------------
// Implementation
// ---------------------------------------------------------------------------

fn make_diag(code: &str, severity: Severity, message: Vec<char>, range: LineRange, fix: Vec<char>) -> (r: Diagnostic)
    ensures
        r@ == diag_at(code@, severity, message@, range, fix@),
{
    Diagnostic {
        code: string_of(chars_of(code).as_slice()),
        severity,
        message: string_of(message.as_slice()),
        line: Some(range.start),
        column: None,
        line_range: Some(range),
        suggested_fix: Some(string_of(fix.as_slice())),
    }
}

/// Check for duplicate section paths: a section with the path and ordinal
/// of an earlier one.
fn check_duplicate_section_path(doc: &DocumentBlock, i: usize, section: &SectionBlock, diagnostics: &mut Vec<Diagnostic>)
    requires
        i < doc@.blocks.len(),
        doc@.blocks[i as int] == BlockNode::Section(*section)@,
    ensures
        diag_views(final(diagnostics)@) == diag_views(old(diagnostics)@) + dup_diags(doc@.blocks, i as int),
{
    let ghost blocks = doc@.blocks;
    let ghost m = blocks[i as int];
    let p = chars_of(section.path.as_str());
    assert(i < doc.block_by_id.len());
    let mut count: usize = 0;
    let mut j: usize = 0;
    while j <= i
        invariant
            j <= i + 1,
            i < blocks.len(),
            blocks == doc@.blocks,
            m == blocks[i as int],
            m == BlockNode::Section(*section)@,
            p@ == section.path@,
            count == key_count(blocks, m, j as int),
            count <= j,
            i < usize::MAX,
        decreases i + 1 - j,
    {
        let other = &doc.block_by_id[j];
        assert(other@ == blocks[j as int]);
        match other {
            BlockNode::Section(s) => {
                if s.ordinal == section.ordinal {
                    let q = chars_of(s.path.as_str());
                    if chars_eq(q.as_slice(), p.as_slice()) {
                        count = count + 1;
                    }
                }
            },
            _ => {},
        }
        j = j + 1;
    }
    if count > 1 {
        let mut msg = chars_of("Duplicate section path '");
        append(&mut msg, p.as_slice());
        append(&mut msg, chars_of("' with ordinal ").as_slice());
        append(&mut msg, decimal_chars(section.ordinal as usize).as_slice());
        append(&mut msg, chars_of(" (occurrence ").as_slice());
        append(&mut msg, decimal_chars(count).as_slice());
        append(&mut msg, chars_of(")").as_slice());
        let mut fix = chars_of("Rename or renumber section '");
        append(&mut fix, chars_of(section.title.as_str()).as_slice());
        append(&mut fix, chars_of("' to disambiguate").as_slice());
        let ghost before = diag_views(diagnostics@);
        let dg = make_diag("DUPLICATE_SECTION_PATH", Severity::Warning, msg, section.block.line_range, fix);
        let ghost dv = dg@;
        diagnostics.push(dg);
        assert(diag_views(diagnostics@) =~= before + seq![dv]);
    } else {
        assert(diag_views(diagnostics@) =~= diag_views(old(diagnostics)@) + Seq::<DiagModel>::empty());
    }
}

/// Check for empty sections (no children).
fn check_empty_section(section: &SectionBlock, diagnostics: &mut Vec<Diagnostic>)
    ensures
        diag_views(final(diagnostics)@) == diag_views(old(diagnostics)@) + empty_diags(BlockNode::Section(*section)@),
{
    if section.block.children_ids.len() == 0 {
        let mut msg = chars_of("Section '");
        append(&mut msg, chars_of(section.title.as_str()).as_slice());
        append(&mut msg, chars_of("' at line ").as_slice());
        append(&mut msg, decimal_chars(section.block.line_range.start).as_slice());
        append(&mut msg, chars_of(" has no content").as_slice());
        let mut fix = chars_of("Add content under heading '");
        append(&mut fix, chars_of(section.title.as_str()).as_slice());
        append(&mut fix, chars_of("' or remove the empty section").as_slice());
        let ghost before = diag_views(diagnostics@);
        let dg = make_diag("EMPTY_SECTION", Severity::Warning, msg, section.block.line_range, fix);
        let ghost dv = dg@;
        diagnostics.push(dg);
        assert(diag_views(diagnostics@) =~= before + seq![dv]);
    } else {
        assert(diag_views(diagnostics@) =~= diag_views(old(diagnostics)@) + Seq::<DiagModel>::empty());
    }
}

/// The length of the run of `c` at the start of `s`.
fn run_of(s: &[char], c: char) -> (r: usize)
    ensures
        r == run_len(s@, c),
        r <= s@.len(),
{
    let mut i: usize = 0;
    assert(s@.skip(0) =~= s@);
    while i < s.len() && s[i] == c
        invariant
            i <= s@.len(),
            run_len(s@, c) == i + run_len(s@.skip(i as int), c),
        decreases s@.len() - i,
    {
        assert(s@.skip(i as int).drop_first() =~= s@.skip(i + 1));
        i = i + 1;
    }
    i
}

/// Whether a line closes a fence of `len` characters `c`.
fn is_closer(line: &[char], c: char, len: usize) -> (r: bool)
    ensures
        r == closes(line@, c, len as nat),
{
    let t = trim_start(line);
    if t.len() == 0 || t[0] != c {
        return false;
    }
    let n = run_of(t.as_slice(), c);
    if n < len {
        return false;
    }
    let mut rest: Vec<char> = Vec::new();
    let mut k = n;
    while k < t.len()
        invariant
            n <= k <= t@.len(),
            rest@ == t@.subrange(n as int, k as int),
        decreases t@.len() - k,
    {
        rest.push(t[k]);
        k = k + 1;
    }
    assert(rest@ =~= t@.skip(n as int));
    is_blank(rest.as_slice())
}

/// Check for an unclosed fenced code block: the source lines of the block
/// open a fence that no later line of the block closes.
fn check_unclosed_fence(fence: &FenceBlock, lines: &Vec<Vec<char>>, diagnostics: &mut Vec<Diagnostic>)
    ensures
        diag_views(final(diagnostics)@) == diag_views(old(diagnostics)@) + fence_diags_of(views(lines@), BlockNode::Fence(
            *fence,
        )@),
{
    let ghost ls = views(lines@);
    let ghost m = BlockNode::Fence(*fence)@;
    let start = fence.block.line_range.start;
    let end = fence.block.line_range.end;
    if start == 0 || start > lines.len() {
        assert(diag_views(diagnostics@) =~= diag_views(old(diagnostics)@) + Seq::<DiagModel>::empty());
        return;
    }
    let start_idx = start - 1;
    let end_idx = if end <= lines.len() { end } else { lines.len() };
    if start_idx >= end_idx {
        assert(diag_views(diagnostics@) =~= diag_views(old(diagnostics)@) + Seq::<DiagModel>::empty());
        return;
    }
    let ghost fl = ls.subrange(start_idx as int, end_idx as int);
    let first = trim_start(lines[start_idx].as_slice());
    assert(fl[0] == lines@[start_idx as int]@);
    let bt = chars_of("```");
    let td = chars_of("~~~");
    proof {
        reveal_strlit("```");
        reveal_strlit("~~~");
    }
    let is_backtick = starts_with(first.as_slice(), bt.as_slice());
    let is_tilde = starts_with(first.as_slice(), td.as_slice());
    if !is_backtick && !is_tilde {
        assert(diag_views(diagnostics@) =~= diag_views(old(diagnostics)@) + Seq::<DiagModel>::empty());
        return;
    }
    assert(trim_start_ws(fl[0]) == first@);
    assert(is_backtick == (first@.len() >= 3 && first@.take(3) == "```"@));
    assert(is_tilde == (first@.len() >= 3 && first@.take(3) == "~~~"@));
    let c = if is_backtick { '`' } else { '~' };
    let len = run_of(first.as_slice(), c);
    let mut has_closer = false;
    let mut j = start_idx + 1;
    while j < end_idx
        invariant
            start_idx < end_idx <= lines@.len(),
            start_idx + 1 <= j <= end_idx,
            ls == views(lines@),
            fl == ls.subrange(start_idx as int, end_idx as int),
            has_closer == exists|q: int| 1 <= q < j - start_idx && #[trigger] closes(fl[q], c, len as nat),
        decreases end_idx - j,
    {
        assert(fl[j - start_idx] == lines@[j as int]@);
        if is_closer(lines[j].as_slice(), c, len) {
            has_closer = true;
        }
        proof {
            if !has_closer {
                assert forall|q: int| 1 <= q < j + 1 - start_idx implies !#[trigger] closes(fl[q], c, len as nat) by {
                    if q == j - start_idx {
                    } else {
                    }
                }
            }
        }
        j = j + 1;
    }
    assert(j == end_idx);
    assert(fl.len() == end_idx - start_idx);
    assert(has_closer == closed(fl, c, len as nat));
    if !has_closer {
        let mut msg = chars_of("Unclosed fenced code block starting at line ");
        append(&mut msg, decimal_chars(start).as_slice());
        let mut fix = chars_of("Add closing fence '");
        let mut k: usize = 0;
        let ghost base = fix@;
        while k < len
            invariant
                k <= len,
                fix@ == base + Seq::new(k as nat, |i: int| c),
            decreases len - k,
        {
            fix.push(c);
            k = k + 1;
            assert(fix@ =~= base + Seq::new(k as nat, |i: int| c));
        }
        append(&mut fix, chars_of("' at the end of the code block").as_slice());
        let ghost before = diag_views(diagnostics@);
        let dg = make_diag("UNCLOSED_FENCE", Severity::Error, msg, fence.block.line_range, fix);
        let ghost dv = dg@;
        diagnostics.push(dg);
        assert(fence_diags_of(ls, m) == seq![dv]);
        assert(diag_views(diagnostics@) =~= before + seq![dv]);
    } else {
        assert(closed(fl, c, len as nat));
        assert(fence_diags_of(ls, m) =~= Seq::<DiagModel>::empty());
        assert(diag_views(diagnostics@) =~= diag_views(old(diagnostics)@) + Seq::<DiagModel>::empty());
    }
}

/// Whether a line after the first of `fl` closes the fence.
pub open spec fn closed(fl: Seq<Seq<char>>, c: char, len: nat) -> bool {
    exists|j: int| 1 <= j < fl.len() && #[trigger] closes(fl[j], c, len)
}

/// The unclosed-fence error for a fence block, given the lines of the
/// source: its lines open a fence (three or more backticks or tildes) that
/// no later line of the block closes.
pub open spec fn fence_diags_of(lines: Seq<Seq<char>>, m: NodeModel) -> Seq<DiagModel> {
    let r = m.block().line_range;
    let start = r.start as int;
    let end_idx = if (r.end as int) <= lines.len() { r.end as int } else { lines.len() as int };
    if start == 0 || start > lines.len() || start - 1 >= end_idx {
        Seq::empty()
    } else {
        let fl = lines.subrange(start - 1, end_idx);
        let first = trim_start_ws(fl[0]);
        let backtick = first.len() >= 3 && first.take(3) == "```"@;
        let tilde = first.len() >= 3 && first.take(3) == "~~~"@;
        let c = if backtick { '`' } else { '~' };
        let len = run_len(first, c);
        if !backtick && !tilde {
            Seq::empty()
        } else if closed(fl, c, len) {
            Seq::empty()
        } else {
            seq![
                diag_at(
                    "UNCLOSED_FENCE"@,
                    Severity::Error,
                    "Unclosed fenced code block starting at line "@ + decimal(r.start as nat),
                    r,
                    "Add closing fence '"@ + Seq::new(len, |i: int| c) + "' at the end of the code block"@,
                ),
            ]
        }
    }
}

/// Validate a parsed document and return its diagnostics: those it
/// already carries (such as heading level jumps found while building the
/// tree), then for each block in order: `DUPLICATE_SECTION_PATH` for a
/// section with the path and ordinal of an earlier one, `EMPTY_SECTION` for
/// a section without children, `UNCLOSED_FENCE` for a fence whose closing
/// marker is missing.
pub fn validate(doc: &DocumentBlock) -> (r: Vec<Diagnostic>)
    ensures
        diag_views(r@) == validate_spec(doc@),
{
    let mut diagnostics: Vec<Diagnostic> = Vec::new();
    let mut k: usize = 0;
    while k < doc.diagnostics.len()
        invariant
            k <= doc.diagnostics@.len(),
            diag_views(diagnostics@) == diag_views(doc.diagnostics@.take(k as int)),
        decreases doc.diagnostics@.len() - k,
    {
        let ghost before = diag_views(diagnostics@);
        diagnostics.push(doc.diagnostics[k].duplicate());
        assert(diag_views(diagnostics@) =~= before.push(doc.diagnostics@[k as int]@));
        assert(diag_views(doc.diagnostics@.take(k + 1)) =~= diag_views(doc.diagnostics@.take(k as int)).push(
            doc.diagnostics@[k as int]@,
        ));
        k = k + 1;
    }
    assert(doc.diagnostics@.take(doc.diagnostics@.len() as int) =~= doc.diagnostics@);
    let src = chars_of(doc.source_text.as_str());
    let lines = split_lines(src.as_slice());
    let ghost d = doc@;
    let mut i: usize = 0;
    assert(diag_views(diagnostics@) =~= d.diagnostics + blocks_diags(d, 0));
    while i < doc.block_by_id.len()
        invariant
            i <= d.blocks.len(),
            d == doc@,
            views(lines@) == lines_of(d.source_text),
            diag_views(diagnostics@) == d.diagnostics + blocks_diags(d, i as int),
        decreases d.blocks.len() - i,
    {
        let node = &doc.block_by_id[i];
        assert(node@ == d.blocks[i as int]);
        let ghost before = diag_views(diagnostics@);
        match node {
            BlockNode::Section(section) => {
                check_duplicate_section_path(doc, i, section, &mut diagnostics);
                check_empty_section(section, &mut diagnostics);
            },
            BlockNode::Fence(fence) => {
                check_unclosed_fence(fence, &lines, &mut diagnostics);
            },
            _ => {},
        }
        assert(diag_views(diagnostics@) =~= before + block_diags(d, i as int));
        i = i + 1;
    }
    diagnostics
}

/// A fence opened by tildes is closed by tildes: when the first line of a
/// fence block, after leading whitespace, starts with `n >= 3` tildes, and a
/// later line of the block is, after leading whitespace, at least `n` tildes
/// followed by nothing but whitespace, validation reports nothing for the
/// block (in particular no unclosed fence).
pub proof fn law_tilde_fence_closed_by_tildes(d: DocModel, i: int, j: int)
    requires
        0 <= i < d.blocks.len(),
        d.blocks[i] is Fence,
        ({
            let r = d.blocks[i].block().line_range;
            let lines = lines_of(d.source_text);
            let first = trim_start_ws(lines[r.start - 1]);
            let n = run_len(first, '~');
            let t = trim_start_ws(lines[j - 1]);
            &&& 1 <= r.start < j <= r.end
            &&& j <= lines.len()
            &&& n >= 3
            &&& run_len(t, '~') >= n
            &&& trim_ws(t.skip(run_len(t, '~') as int)).len() == 0
        }),
    ensures
        block_diags(d, i) == Seq::<DiagModel>::empty(),
{
    let m = d.blocks[i];
    let r = m.block().line_range;
    let lines = lines_of(d.source_text);
    let start = r.start as int;
    let end_idx = if (r.end as int) <= lines.len() { r.end as int } else { lines.len() as int };
    let fl = lines.subrange(start - 1, end_idx);
    let first = trim_start_ws(fl[0]);
    assert(fl[0] == lines[r.start - 1]);
    lemma_run_prefix(first, '~', 3);
    reveal_strlit("```");
    reveal_strlit("~~~");
    assert(first.take(3) =~= "~~~"@);
    assert(first.take(3) != "```"@) by {
        assert(first.take(3)[0] == '~');
    }
    let jj = j - start;
    assert(fl[jj] == lines[j - 1]);
    let t = trim_start_ws(fl[jj]);
    lemma_run_prefix(t, '~', 1);
    assert(closes(fl[jj], '~', run_len(first, '~')));
    assert(closed(fl, '~', run_len(first, '~')));
    assert(fence_diags_of(lines, m) =~= Seq::<DiagModel>::empty());
}

/// A run of at least `k` characters `c` starts the text with `k` of them.
proof fn lemma_run_prefix(s: Seq<char>, c: char, k: nat)
    requires
        run_len(s, c) >= k,
    ensures
        s.len() >= k,
        forall|q: int| 0 <= q < k ==> #[trigger] s[q] == c,
    decreases k,
{
    if k > 0 {
        lemma_run_prefix(s.drop_first(), c, (k - 1) as nat);
        assert forall|q: int| 0 <= q < k implies #[trigger] s[q] == c by {
            if q > 0 {
                assert(s[q] == s.drop_first()[q - 1]);
            }
        }
    }
}

} // verus!
