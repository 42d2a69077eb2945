//! Formatting of the ASCII art blocks of a markdown text.

use vstd::prelude::*;

use crate::ascii::detect::{ascii_blocks, detect_ascii_blocks};
use crate::ascii::format::{format_block, format_spec};
use crate::ascii::model::{AsciiBlockModel, AsciiMode};
use crate::builder::tree_builder::{build_tree, buildable, built_from};
use crate::domain::document::{lookup, DocModel, DocumentBlock};
use crate::domain::policy::FilesystemPolicy;
use crate::domain::response::{WriteModel, WriteResponse};
use crate::error::{diag_views, DiagModel, Diagnostic, MdtoolError};
use crate::infrastructure::parser::sat_dec;
use crate::infrastructure::policy_guard::{check_write_allowed, read_only_error};
use crate::ops::diff::{compute_diff, diff_spec};
use crate::primitives::LineRange;
use crate::services::block_service::ServiceResult;
use crate::text::{append, char_vecs_of, chars_of, join, join_with, lines_of, split_lines, string_of, views};

verus! {

broadcast use vstd::std_specs::vec::group_vec_axioms;

/// The lines outside the 1-based inclusive range, among the first `k`.
pub open spec fn lines_outside(lines: Seq<Seq<char>>, r: LineRange, k: int) -> Seq<Seq<char>>
    decreases k,
{
    if k <= 0 {
        Seq::empty()
    } else if r.start <= k && k <= r.end {
        lines_outside(lines, r, k - 1)
    } else {
        lines_outside(lines, r, k - 1).push(lines[k - 1])
    }
}

/// A text with the lines of a range replaced by `new_lines`, one newline
/// after each line.
pub open spec fn splice(text: Seq<char>, r: LineRange, new_lines: Seq<Seq<char>>) -> Seq<char> {
    let lines = lines_of(text);
    let kept = lines_outside(lines, r, lines.len() as int);
    let at = if (sat_dec(r.start) as int) <= kept.len() { sat_dec(r.start) as int } else { kept.len() as int };
    join_with(kept.take(at) + new_lines + kept.skip(at), "\n"@) + "\n"@
}

/// The state after formatting the first `k` ASCII art blocks: the text,
/// whether some block changed, and the diagnostics.
pub open spec fn ascii_fold(d: DocModel, text: Seq<char>, mode: AsciiMode, blocks: Seq<AsciiBlockModel>, k: int) -> (
    Seq<char>,
    bool,
    Seq<DiagModel>,
)
    decreases k,
{
    if k <= 0 {
        (text, false, Seq::empty())
    } else {
        let (cur, changed, diags) = ascii_fold(d, text, mode, blocks, k - 1);
        let e = format_spec(blocks[k - 1], mode);
        let diags2 = diags + e.diagnostics;
        if e.changed {
            match lookup(d.blocks, blocks[k - 1].block_id) {
                Some(m) => (splice(cur, m.block().line_range, e.after), true, diags2),
                None => (cur, true, diags2),
            }
        } else {
            (cur, changed, diags2)
        }
    }
}

/// What formatting the ASCII art of a text returns, with `d` its tree:
/// whether some block changed, the diagnostics, the diff from the text to
/// the formatted one, and the formatted text to write back unless it is a
/// dry run or nothing changed (refused under a read-only policy).
pub open spec fn ascii_outcome(
    policy: FilesystemPolicy,
    d: DocModel,
    text: Seq<char>,
    mode: AsciiMode,
    dry_run: bool,
    r: ServiceResult,
) -> bool {
    let blocks = ascii_blocks(d.blocks, d.blocks.len() as int);
    let (cur, changed, diags) = ascii_fold(d, text, mode, blocks, blocks.len() as int);
    if !dry_run && changed && policy.read_only {
        r matches Err(e) && e@ == read_only_error()
    } else {
        &&& r matches Ok((resp, w))
        &&& resp@ == (WriteModel {
            success: true,
            changed,
            diagnostics: diags,
            diff_summary: if changed { Some(diff_spec(text, cur)) } else { None },
            content: None,
        })
        &&& if !dry_run && changed {
            w matches Some(t) && t@ == cur
        } else {
            w is None
        }
    }
}

/// ASCII art formatting under a filesystem policy.
#[derive(Debug, Clone)]
pub struct AsciiService {
    pub policy: FilesystemPolicy,
}

fn splice_text(text: &[char], r: LineRange, new_lines: &Vec<Vec<char>>) -> (out: Vec<char>)
    ensures
        out@ == splice(text@, r, views(new_lines@)),
{
    let lines = split_lines(text);
    let ghost ls = lines_of(text@);
    let mut kept: Vec<Vec<char>> = Vec::new();
    let mut i: usize = 0;
    while i < lines.len()
        invariant
            i <= lines@.len(),
            views(lines@) == ls,
            views(kept@) == lines_outside(ls, r, i as int),
        decreases lines@.len() - i,
    {
        let line_num = i + 1;
        if line_num >= r.start && line_num <= r.end {
        } else {
            let ghost before = views(kept@);
            kept.push(crate::domain::document::clone_chars(&lines[i]));
            assert(views(kept@) =~= before.push(ls[i as int]));
        }
        i = i + 1;
    }
    let s0 = if r.start >= 1 { r.start - 1 } else { 0 };
    let at = if s0 <= kept.len() { s0 } else { kept.len() };
    let mut all: Vec<Vec<char>> = Vec::new();
    let ghost kv = views(kept@);
    let mut k: usize = 0;
    while k < at
        invariant
            k <= at <= kept@.len(),
            kv == views(kept@),
            views(all@) == kv.take(k as int),
        decreases at - k,
    {
        let ghost before = views(all@);
        all.push(crate::domain::document::clone_chars(&kept[k]));
        assert(views(all@) =~= before.push(kv[k as int]));
        assert(views(all@) =~= kv.take(k + 1));
        k = k + 1;
    }
    let mut j: usize = 0;
    while j < new_lines.len()
        invariant
            j <= new_lines@.len(),
            views(all@) == kv.take(at as int) + views(new_lines@).take(j as int),
        decreases new_lines@.len() - j,
    {
        let ghost before = views(all@);
        all.push(crate::domain::document::clone_chars(&new_lines[j]));
        assert(views(all@) =~= before.push(new_lines@[j as int]@));
        assert(views(all@) =~= kv.take(at as int) + views(new_lines@).take(j + 1));
        j = j + 1;
    }
    let mut q = at;
    while q < kept.len()
        invariant
            at <= q <= kept@.len(),
            kv == views(kept@),
            views(all@) == kv.take(at as int) + views(new_lines@) + kv.subrange(at as int, q as int),
        decreases kept@.len() - q,
    {
        let ghost before = views(all@);
        all.push(crate::domain::document::clone_chars(&kept[q]));
        assert(views(all@) =~= before.push(kv[q as int]));
        assert(views(all@) =~= kv.take(at as int) + views(new_lines@) + kv.subrange(at as int, q + 1));
        q = q + 1;
    }
    assert(views(all@) =~= kv.take(at as int) + views(new_lines@) + kv.skip(at as int));
    let mut out = join(&all, chars_of("\n").as_slice());
    append(&mut out, chars_of("\n").as_slice());
    out
}

impl AsciiService {
    /// A service under the given policy.
    pub fn new(policy: FilesystemPolicy) -> (r: Self)
        ensures
            r.policy == policy,
    {
        AsciiService { policy }
    }

    /// Format the ASCII art blocks of a text: each block formatted in the
    /// given mode, and the lines of each changed block replaced in the text
    /// by the formatted ones.
    pub fn format_ascii(&self, text: &str, mode: AsciiMode, dry_run: bool) -> (r: ServiceResult)
        ensures
            match r {
                Ok(_) => exists|d: DocModel| #[trigger] built_from(text@, d) && ascii_outcome(self.policy, d, text@, mode, dry_run, r),
                Err(e) => (e is Parse && !buildable(text@)) || exists|d: DocModel| #[trigger] built_from(text@, d) && ascii_outcome(
                    self.policy,
                    d,
                    text@,
                    mode,
                    dry_run,
                    r,
                ),
            },
    {
        let doc = build_tree(text)?;
        let ghost d = doc@;
        let blocks = detect_ascii_blocks(&doc);
        let ghost bs = ascii_blocks(d.blocks, d.blocks.len() as int);
        let mut all_diagnostics: Vec<Diagnostic> = Vec::new();
        let mut changed = false;
        let mut current = chars_of(text);
        let mut i: usize = 0;
        while i < blocks.len()
            invariant
                d == doc@,
                i <= blocks@.len(),
                blocks@.len() == bs.len(),
                forall|q: int| 0 <= q < blocks@.len() ==> #[trigger] blocks@[q]@ == bs[q],
                (current@, changed, diag_views(all_diagnostics@)) == ascii_fold(d, text@, mode, bs, i as int),
            decreases blocks@.len() - i,
        {
            let edit = format_block(&blocks[i], mode);
            assert(edit@ == format_spec(bs[i as int], mode));
            let ghost before = diag_views(all_diagnostics@);
            let ghost ed = diag_views(edit.diagnostics@);
            let mut ds = edit.diagnostics;
            all_diagnostics.append(&mut ds);
            assert(diag_views(all_diagnostics@) =~= before + ed);
            if edit.changed {
                changed = true;
                match doc.get_block(blocks[i].block_id) {
                    Some(bn) => {
                        let after = char_vecs_of(&edit.after);
                        current = splice_text(current.as_slice(), bn.block().line_range, &after);
                    },
                    None => {},
                }
            }
            i = i + 1;
        }
        let current_text = string_of(current.as_slice());
        let diff_summary = if changed {
            Some(compute_diff(text, current_text.as_str()))
        } else {
            None
        };
        let write = if !dry_run && changed {
            check_write_allowed(&self.policy)?;
            Some(current_text)
        } else {
            None
        };
        let resp = WriteResponse {
            success: true,
            changed,
            diagnostics: all_diagnostics,
            diff_summary,
            content: None,
        };
        assert(built_from(text@, d));
        Ok((resp, write))
    }
}

} // verus!
